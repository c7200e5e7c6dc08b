use crate::text::{
    chars_eq, chars_of, decimal, has_prefix, lines, push_all, push_decimal, slice_chars,
    split_lines, starts_with, string_of,
};
use vstd::prelude::*;

verus! {

/// The kinds of request the server answers.
#[derive(Clone, Copy, Debug, PartialEq, Eq, Structural)]
pub enum Request {
    Initialize,
    ListPrompts,
    GetPrompt,
    ListProjects,
    ListTools,
    CallTool,
    /// Any other method that carries an id: answered with `handled`.
    Acknowledge,
    /// Any other method without an id (a notification): not answered.
    Ignore,
}

/// The request a method stands for.
pub open spec fn request_kind(method: Seq<char>, has_id: bool) -> Request {
    if method == "initialize"@ {
        Request::Initialize
    } else if method == "prompts/list"@ {
        Request::ListPrompts
    } else if method == "prompts/get"@ {
        Request::GetPrompt
    } else if method == "list_projects"@ {
        Request::ListProjects
    } else if method == "tools/list"@ {
        Request::ListTools
    } else if method == "tools/call"@ {
        Request::CallTool
    } else if has_id {
        Request::Acknowledge
    } else {
        Request::Ignore
    }
}

fn is_literal(s: &[char], lit: &str) -> (b: bool)
    ensures
        b == (s@ == lit@),
{
    let l = chars_of(lit);
    chars_eq(s, l.as_slice())
}

/// Classifies a request by its method (see [`request_kind`]).
pub fn classify(method: &str, has_id: bool) -> (r: Request)
    ensures
        r == request_kind(method@, has_id),
{
    let m = chars_of(method);
    let ms = m.as_slice();
    if is_literal(ms, "initialize") {
        Request::Initialize
    } else if is_literal(ms, "prompts/list") {
        Request::ListPrompts
    } else if is_literal(ms, "prompts/get") {
        Request::GetPrompt
    } else if is_literal(ms, "list_projects") {
        Request::ListProjects
    } else if is_literal(ms, "tools/list") {
        Request::ListTools
    } else if is_literal(ms, "tools/call") {
        Request::CallTool
    } else if has_id {
        Request::Acknowledge
    } else {
        Request::Ignore
    }
}

/// The tools the server offers.
#[derive(Clone, Copy, Debug, PartialEq, Eq, Structural)]
pub enum Tool {
    IndexProject,
    SearchContext,
    ExploreNeighbors,
    GetStructuralMap,
    SearchSemanticSummaries,
    GetTokenSavingsReport,
    CleanupIndex,
    ExportIndex,
    ImportIndex,
    SearchFunctions,
    StartWatcher,
    ExportSvg,
    ListProjects,
}

/// The prefix some tool names carry to insist that they be used.
pub open spec fn mandatory_prefix() -> Seq<char> {
    "MANDATORY_"@
}

/// A tool name without the `MANDATORY_` prefix, when it has one.
pub open spec fn plain_tool_name(name: Seq<char>) -> Seq<char> {
    if starts_with(name, mandatory_prefix()) {
        name.skip(mandatory_prefix().len() as int)
    } else {
        name
    }
}

/// The tool a plain tool name stands for.
pub open spec fn tool_named(name: Seq<char>) -> Option<Tool> {
    if name == "index_project"@ {
        Some(Tool::IndexProject)
    } else if name == "search_context"@ {
        Some(Tool::SearchContext)
    } else if name == "explore_neighbors"@ {
        Some(Tool::ExploreNeighbors)
    } else if name == "get_structural_map"@ {
        Some(Tool::GetStructuralMap)
    } else if name == "search_semantic_summaries"@ {
        Some(Tool::SearchSemanticSummaries)
    } else if name == "get_token_savings_report"@ {
        Some(Tool::GetTokenSavingsReport)
    } else if name == "cleanup_index"@ {
        Some(Tool::CleanupIndex)
    } else if name == "export_index"@ {
        Some(Tool::ExportIndex)
    } else if name == "import_index"@ {
        Some(Tool::ImportIndex)
    } else if name == "search_functions"@ {
        Some(Tool::SearchFunctions)
    } else if name == "start_watcher"@ {
        Some(Tool::StartWatcher)
    } else if name == "export_svg"@ {
        Some(Tool::ExportSvg)
    } else if name == "list_projects"@ {
        Some(Tool::ListProjects)
    } else {
        None
    }
}

/// A tool name without its `MANDATORY_` prefix (see [`plain_tool_name`]).
pub fn normalize_tool_name(name: &str) -> (r: String)
    ensures
        r@ == plain_tool_name(name@),
{
    let n = chars_of(name);
    let p = chars_of("MANDATORY_");
    if has_prefix(n.as_slice(), p.as_slice()) {
        let rest = slice_chars(n.as_slice(), p.len(), n.len());
        assert(rest@ =~= name@.skip(mandatory_prefix().len() as int));
        string_of(rest.as_slice())
    } else {
        string_of(n.as_slice())
    }
}

/// The tool a call names, with or without the `MANDATORY_` prefix.
pub fn parse_tool(name: &str) -> (r: Option<Tool>)
    ensures
        r == tool_named(plain_tool_name(name@)),
{
    let plain = normalize_tool_name(name);
    let p = chars_of(plain.as_str());
    let ps = p.as_slice();
    if is_literal(ps, "index_project") {
        Some(Tool::IndexProject)
    } else if is_literal(ps, "search_context") {
        Some(Tool::SearchContext)
    } else if is_literal(ps, "explore_neighbors") {
        Some(Tool::ExploreNeighbors)
    } else if is_literal(ps, "get_structural_map") {
        Some(Tool::GetStructuralMap)
    } else if is_literal(ps, "search_semantic_summaries") {
        Some(Tool::SearchSemanticSummaries)
    } else if is_literal(ps, "get_token_savings_report") {
        Some(Tool::GetTokenSavingsReport)
    } else if is_literal(ps, "cleanup_index") {
        Some(Tool::CleanupIndex)
    } else if is_literal(ps, "export_index") {
        Some(Tool::ExportIndex)
    } else if is_literal(ps, "import_index") {
        Some(Tool::ImportIndex)
    } else if is_literal(ps, "search_functions") {
        Some(Tool::SearchFunctions)
    } else if is_literal(ps, "start_watcher") {
        Some(Tool::StartWatcher)
    } else if is_literal(ps, "export_svg") {
        Some(Tool::ExportSvg)
    } else if is_literal(ps, "list_projects") {
        Some(Tool::ListProjects)
    } else {
        None
    }
}

/// Whether a setting such as `TOKEN_SAVINGS_LOG` is on: only the value
/// `true` turns it on (`false`, anything else or no value leave it off).
pub fn flag_enabled(value: Option<&str>) -> (b: bool)
    ensures
        b == (value matches Some(v) && v@ == "true"@),
{
    match value {
        None => false,
        Some(v) => {
            let c = chars_of(v);
            is_literal(c.as_slice(), "true")
        },
    }
}

/// Token counts of one answer, at about four characters per token.
pub struct TokenSaving {
    pub raw_tokens: usize,
    pub sent_tokens: usize,
    pub saved: usize,
}

/// The tokens that reading the files whole would have cost, the tokens that
/// were sent, and the difference (never below zero).
pub fn token_saving(raw_chars: usize, sent_chars: usize) -> (t: TokenSaving)
    ensures
        t.raw_tokens == raw_chars / 4,
        t.sent_tokens == sent_chars / 4,
        t.saved == if raw_chars / 4 >= sent_chars / 4 {
            (raw_chars / 4 - sent_chars / 4) as usize
        } else {
            0usize
        },
{
    let raw_tokens = raw_chars / 4;
    let sent_tokens = sent_chars / 4;
    TokenSaving { raw_tokens, sent_tokens, saved: raw_tokens.saturating_sub(sent_tokens) }
}

/// The lines, each followed by a newline.
pub open spec fn joined_lines(ls: Seq<Seq<char>>) -> Seq<char>
    decreases ls.len(),
{
    if ls.len() == 0 {
        seq![]
    } else {
        joined_lines(ls.drop_last()) + ls.last() + seq!['\n']
    }
}

/// The last `n` of the lines (all of them when there are fewer).
pub open spec fn last_lines(ls: Seq<Seq<char>>, n: nat) -> Seq<Seq<char>> {
    if ls.len() > n {
        ls.skip(ls.len() - n)
    } else {
        ls
    }
}

/// The token-savings report for a log: its number of lines, then its last
/// twenty lines.
pub open spec fn savings_report_spec(log: Seq<char>) -> Seq<char> {
    "📊 REPORTE DE AHORRO DE TOKENS\nTotal registros: "@ + decimal(lines(log).len())
        + "\n\nÚLTIMOS 20:\n"@ + joined_lines(last_lines(lines(log), 20))
}

/// The token-savings report for a log (see [`savings_report_spec`]).
pub fn savings_report(log: &str) -> (r: String)
    ensures
        r@ == savings_report_spec(log@),
{
    let cs = chars_of(log);
    let ls = split_lines(cs.as_slice());
    let ghost lv = ls.deep_view();
    let mut out: Vec<char> = chars_of("📊 REPORTE DE AHORRO DE TOKENS\nTotal registros: ");
    push_decimal(&mut out, ls.len());
    let mid = chars_of("\n\nÚLTIMOS 20:\n");
    push_all(&mut out, mid.as_slice());
    let ghost head = out@;
    let start: usize = if ls.len() > 20 {
        ls.len() - 20
    } else {
        0
    };
    assert(lv.subrange(start as int, start as int) =~= Seq::<Seq<char>>::empty());
    let mut i: usize = start;
    while i < ls.len()
        invariant
            start <= i <= ls@.len(),
            lv == ls.deep_view(),
            lv.len() == ls@.len(),
            out@ == head + joined_lines(lv.subrange(start as int, i as int)),
        decreases ls@.len() - i,
    {
        assert(lv[i as int] == ls@[i as int]@);
        assert(lv.subrange(start as int, i + 1).drop_last() =~= lv.subrange(start as int, i as int));
        push_all(&mut out, ls[i].as_slice());
        out.push('\n');
        assert(out@ =~= head + joined_lines(lv.subrange(start as int, i + 1)));
        i = i + 1;
    }
    assert(lv.subrange(start as int, i as int) =~= last_lines(lv, 20));
    string_of(out.as_slice())
}

/// The projects as pairs of name and path.
pub open spec fn project_pairs(ps: Seq<(String, String)>) -> Seq<(Seq<char>, Seq<char>)> {
    ps.map_values(|p: (String, String)| (p.0@, p.1@))
}

/// One line per project: `  - name (path)`.
pub open spec fn project_lines(ps: Seq<(Seq<char>, Seq<char>)>) -> Seq<char>
    decreases ps.len(),
{
    if ps.len() == 0 {
        seq![]
    } else {
        project_lines(ps.drop_last()) + "  - "@ + ps.last().0 + " ("@ + ps.last().1 + ")\n"@
    }
}

/// The listing of the indexed projects: how many there are, then one line
/// each, or a note that there are none.
pub open spec fn project_list_spec(ps: Seq<(Seq<char>, Seq<char>)>) -> Seq<char> {
    "📂 Proyectos indexados ("@ + decimal(ps.len()) + "):\n"@ + project_lines(ps) + if ps.len()
        == 0 {
        "  (No hay proyectos indexados)\n"@
    } else {
        seq![]
    }
}

/// The listing of the indexed projects (see [`project_list_spec`]).
pub fn project_list_text(projects: &[(String, String)]) -> (r: String)
    ensures
        r@ == project_list_spec(project_pairs(projects@)),
{
    let ghost pv = project_pairs(projects@);
    let mut out: Vec<char> = chars_of("📂 Proyectos indexados (");
    push_decimal(&mut out, projects.len());
    let h = chars_of("):\n");
    push_all(&mut out, h.as_slice());
    let ghost head = out@;
    let dash = chars_of("  - ");
    let open = chars_of(" (");
    let close = chars_of(")\n");
    let mut i: usize = 0;
    while i < projects.len()
        invariant
            i <= projects@.len(),
            pv == project_pairs(projects@),
            dash@ == "  - "@,
            open@ == " ("@,
            close@ == ")\n"@,
            out@ == head + project_lines(pv.take(i as int)),
        decreases projects@.len() - i,
    {
        assert(pv.take(i + 1).drop_last() =~= pv.take(i as int));
        let name = chars_of(projects[i].0.as_str());
        let path = chars_of(projects[i].1.as_str());
        push_all(&mut out, dash.as_slice());
        push_all(&mut out, name.as_slice());
        push_all(&mut out, open.as_slice());
        push_all(&mut out, path.as_slice());
        push_all(&mut out, close.as_slice());
        assert(out@ =~= head + project_lines(pv.take(i + 1)));
        i = i + 1;
    }
    assert(pv.take(i as int) =~= pv);
    if projects.len() == 0 {
        let none = chars_of("  (No hay proyectos indexados)\n");
        push_all(&mut out, none.as_slice());
    }
    string_of(out.as_slice())
}

/// The short count of indexed projects answered to a `list_projects`
/// request.
pub fn project_count_text(n: usize) -> (r: String)
    ensures
        r@ == "📂 Proyectos indexados ("@ + decimal(n as nat) + ")"@,
{
    let mut out: Vec<char> = chars_of("📂 Proyectos indexados (");
    push_decimal(&mut out, n);
    out.push(')');
    proof {
        reveal_strlit(")");
    }
    string_of(out.as_slice())
}

/// Every tool answers to its name with and without the `MANDATORY_` prefix.
pub proof fn lemma_mandatory_alias(name: Seq<char>)
    ensures
        plain_tool_name(mandatory_prefix() + name) == name,
        tool_named(plain_tool_name(mandatory_prefix() + name)) == tool_named(name),
{
    let p = mandatory_prefix();
    assert((p + name).take(p.len() as int) =~= p);
    assert((p + name).skip(p.len() as int) =~= name);
}

/// Each advertised tool name calls up its own tool: `index_project`,
/// `search_context`, `explore_neighbors`, `get_structural_map`,
/// `search_semantic_summaries`, `get_token_savings_report`,
/// `cleanup_index`, `export_index`, `import_index`, `search_functions`,
/// `start_watcher`, `export_svg` and `list_projects` each name the tool
/// of the same name.
pub proof fn lemma_advertised_tool_names()
    ensures
        tool_named("index_project"@) == Some(Tool::IndexProject),
        tool_named("search_context"@) == Some(Tool::SearchContext),
        tool_named("explore_neighbors"@) == Some(Tool::ExploreNeighbors),
        tool_named("get_structural_map"@) == Some(Tool::GetStructuralMap),
        tool_named("search_semantic_summaries"@) == Some(Tool::SearchSemanticSummaries),
        tool_named("get_token_savings_report"@) == Some(Tool::GetTokenSavingsReport),
        tool_named("cleanup_index"@) == Some(Tool::CleanupIndex),
        tool_named("export_index"@) == Some(Tool::ExportIndex),
        tool_named("import_index"@) == Some(Tool::ImportIndex),
        tool_named("search_functions"@) == Some(Tool::SearchFunctions),
        tool_named("start_watcher"@) == Some(Tool::StartWatcher),
        tool_named("export_svg"@) == Some(Tool::ExportSvg),
        tool_named("list_projects"@) == Some(Tool::ListProjects),
{
    reveal_strlit("index_project");
    reveal_strlit("search_context");
    reveal_strlit("explore_neighbors");
    reveal_strlit("get_structural_map");
    reveal_strlit("search_semantic_summaries");
    reveal_strlit("get_token_savings_report");
    reveal_strlit("cleanup_index");
    reveal_strlit("export_index");
    reveal_strlit("import_index");
    reveal_strlit("search_functions");
    reveal_strlit("start_watcher");
    reveal_strlit("export_svg");
    reveal_strlit("list_projects");
    assert("search_context"@.len() != "index_project"@.len());
    assert("explore_neighbors"@.len() != "index_project"@.len());
    assert("explore_neighbors"@.len() != "search_context"@.len());
    assert("get_structural_map"@.len() != "index_project"@.len());
    assert("get_structural_map"@.len() != "search_context"@.len());
    assert("get_structural_map"@.len() != "explore_neighbors"@.len());
    assert("search_semantic_summaries"@.len() != "index_project"@.len());
    assert("search_semantic_summaries"@.len() != "search_context"@.len());
    assert("search_semantic_summaries"@.len() != "explore_neighbors"@.len());
    assert("search_semantic_summaries"@.len() != "get_structural_map"@.len());
    assert("get_token_savings_report"@.len() != "index_project"@.len());
    assert("get_token_savings_report"@.len() != "search_context"@.len());
    assert("get_token_savings_report"@.len() != "explore_neighbors"@.len());
    assert("get_token_savings_report"@.len() != "get_structural_map"@.len());
    assert("get_token_savings_report"@.len() != "search_semantic_summaries"@.len());
    assert("cleanup_index"@[0] != "index_project"@[0]);
    assert("cleanup_index"@.len() != "search_context"@.len());
    assert("cleanup_index"@.len() != "explore_neighbors"@.len());
    assert("cleanup_index"@.len() != "get_structural_map"@.len());
    assert("cleanup_index"@.len() != "search_semantic_summaries"@.len());
    assert("cleanup_index"@.len() != "get_token_savings_report"@.len());
    assert("export_index"@.len() != "index_project"@.len());
    assert("export_index"@.len() != "search_context"@.len());
    assert("export_index"@.len() != "explore_neighbors"@.len());
    assert("export_index"@.len() != "get_structural_map"@.len());
    assert("export_index"@.len() != "search_semantic_summaries"@.len());
    assert("export_index"@.len() != "get_token_savings_report"@.len());
    assert("export_index"@.len() != "cleanup_index"@.len());
    assert("import_index"@.len() != "index_project"@.len());
    assert("import_index"@.len() != "search_context"@.len());
    assert("import_index"@.len() != "explore_neighbors"@.len());
    assert("import_index"@.len() != "get_structural_map"@.len());
    assert("import_index"@.len() != "search_semantic_summaries"@.len());
    assert("import_index"@.len() != "get_token_savings_report"@.len());
    assert("import_index"@.len() != "cleanup_index"@.len());
    assert("import_index"@[0] != "export_index"@[0]);
    assert("search_functions"@.len() != "index_project"@.len());
    assert("search_functions"@.len() != "search_context"@.len());
    assert("search_functions"@.len() != "explore_neighbors"@.len());
    assert("search_functions"@.len() != "get_structural_map"@.len());
    assert("search_functions"@.len() != "search_semantic_summaries"@.len());
    assert("search_functions"@.len() != "get_token_savings_report"@.len());
    assert("search_functions"@.len() != "cleanup_index"@.len());
    assert("search_functions"@.len() != "export_index"@.len());
    assert("search_functions"@.len() != "import_index"@.len());
    assert("start_watcher"@[0] != "index_project"@[0]);
    assert("start_watcher"@.len() != "search_context"@.len());
    assert("start_watcher"@.len() != "explore_neighbors"@.len());
    assert("start_watcher"@.len() != "get_structural_map"@.len());
    assert("start_watcher"@.len() != "search_semantic_summaries"@.len());
    assert("start_watcher"@.len() != "get_token_savings_report"@.len());
    assert("start_watcher"@[0] != "cleanup_index"@[0]);
    assert("start_watcher"@.len() != "export_index"@.len());
    assert("start_watcher"@.len() != "import_index"@.len());
    assert("start_watcher"@.len() != "search_functions"@.len());
    assert("export_svg"@.len() != "index_project"@.len());
    assert("export_svg"@.len() != "search_context"@.len());
    assert("export_svg"@.len() != "explore_neighbors"@.len());
    assert("export_svg"@.len() != "get_structural_map"@.len());
    assert("export_svg"@.len() != "search_semantic_summaries"@.len());
    assert("export_svg"@.len() != "get_token_savings_report"@.len());
    assert("export_svg"@.len() != "cleanup_index"@.len());
    assert("export_svg"@.len() != "export_index"@.len());
    assert("export_svg"@.len() != "import_index"@.len());
    assert("export_svg"@.len() != "search_functions"@.len());
    assert("export_svg"@.len() != "start_watcher"@.len());
    assert("list_projects"@[0] != "index_project"@[0]);
    assert("list_projects"@.len() != "search_context"@.len());
    assert("list_projects"@.len() != "explore_neighbors"@.len());
    assert("list_projects"@.len() != "get_structural_map"@.len());
    assert("list_projects"@.len() != "search_semantic_summaries"@.len());
    assert("list_projects"@.len() != "get_token_savings_report"@.len());
    assert("list_projects"@[0] != "cleanup_index"@[0]);
    assert("list_projects"@.len() != "export_index"@.len());
    assert("list_projects"@.len() != "import_index"@.len());
    assert("list_projects"@.len() != "search_functions"@.len());
    assert("list_projects"@[0] != "start_watcher"@[0]);
    assert("list_projects"@.len() != "export_svg"@.len());
}

/// Tool names map one to one onto tools: two names that call up a tool call
/// up the same one only when they are the same name, and every tool has a
/// name that calls it up.
pub proof fn lemma_tool_names_one_to_one(a: Seq<char>, b: Seq<char>, t: Tool)
    ensures
        tool_named(a) is Some && tool_named(a) == tool_named(b) ==> a == b,
        exists|n: Seq<char>| tool_named(n) == Some(t),
{
    lemma_advertised_tool_names();
    let n = match t {
        Tool::IndexProject => "index_project"@,
        Tool::SearchContext => "search_context"@,
        Tool::ExploreNeighbors => "explore_neighbors"@,
        Tool::GetStructuralMap => "get_structural_map"@,
        Tool::SearchSemanticSummaries => "search_semantic_summaries"@,
        Tool::GetTokenSavingsReport => "get_token_savings_report"@,
        Tool::CleanupIndex => "cleanup_index"@,
        Tool::ExportIndex => "export_index"@,
        Tool::ImportIndex => "import_index"@,
        Tool::SearchFunctions => "search_functions"@,
        Tool::StartWatcher => "start_watcher"@,
        Tool::ExportSvg => "export_svg"@,
        Tool::ListProjects => "list_projects"@,
    };
    assert(tool_named(n) == Some(t));
}

/// Text lengths (in bytes) read and sent while answering one request, for
/// the token-savings log.
pub struct SavingsTally {
    pub raw_chars: usize,
    pub sent_chars: usize,
}

impl SavingsTally {
    /// Nothing counted yet.
    pub fn new() -> (t: Self)
        ensures
            t.raw_chars == 0,
            t.sent_chars == 0,
    {
        SavingsTally { raw_chars: 0, sent_chars: 0 }
    }

    /// Counts a hit answered by its summary: the raw text it stands for is
    /// taken as five times the summary's length.
    pub fn add_summary(&mut self, summary_len: usize)
        requires
            old(self).raw_chars + 5 * summary_len <= usize::MAX,
            old(self).sent_chars + summary_len <= usize::MAX,
        ensures
            final(self).raw_chars == old(self).raw_chars + 5 * summary_len,
            final(self).sent_chars == old(self).sent_chars + summary_len,
    {
        self.raw_chars = self.raw_chars + summary_len * 5;
        self.sent_chars = self.sent_chars + summary_len;
    }

    /// Counts a file of `raw_len` bytes of which `sent_len` were sent.
    pub fn add_text(&mut self, raw_len: usize, sent_len: usize)
        requires
            old(self).raw_chars + raw_len <= usize::MAX,
            old(self).sent_chars + sent_len <= usize::MAX,
        ensures
            final(self).raw_chars == old(self).raw_chars + raw_len,
            final(self).sent_chars == old(self).sent_chars + sent_len,
    {
        self.raw_chars = self.raw_chars + raw_len;
        self.sent_chars = self.sent_chars + sent_len;
    }
}

/// The lines joined with newlines between them.
pub open spec fn join_with_newlines(ls: Seq<Seq<char>>) -> Seq<char>
    decreases ls.len(),
{
    if ls.len() == 0 {
        seq![]
    } else if ls.len() == 1 {
        ls[0]
    } else {
        join_with_newlines(ls.drop_last()) + seq!['\n'] + ls.last()
    }
}

/// The part of a file shown when it has no summary: its first twenty lines,
/// joined with newlines.
pub open spec fn fragment_spec(content: Seq<char>) -> Seq<char> {
    join_with_newlines(lines(content).take(if lines(content).len() < 20 {
        lines(content).len() as int
    } else {
        20
    }))
}

/// The part of a file shown when it has no summary (see [`fragment_spec`]).
pub fn fragment_of(content: &str) -> (r: String)
    ensures
        r@ == fragment_spec(content@),
{
    let cs = chars_of(content);
    let ls = split_lines(cs.as_slice());
    let ghost lv = ls.deep_view();
    let n: usize = if ls.len() < 20 {
        ls.len()
    } else {
        20
    };
    let mut out: Vec<char> = Vec::new();
    let mut i: usize = 0;
    while i < n
        invariant
            i <= n <= ls@.len(),
            lv == ls.deep_view(),
            lv.len() == ls@.len(),
            out@ == join_with_newlines(lv.take(i as int)),
        decreases n - i,
    {
        assert(lv[i as int] == ls@[i as int]@);
        assert(lv.take(i + 1).drop_last() =~= lv.take(i as int));
        if i > 0 {
            out.push('\n');
        } else {
            assert(lv.take(1) =~= seq![lv[0]]);
        }
        push_all(&mut out, ls[i].as_slice());
        assert(out@ =~= join_with_newlines(lv.take(i + 1)));
        i = i + 1;
    }
    string_of(out.as_slice())
}

} // verus!
