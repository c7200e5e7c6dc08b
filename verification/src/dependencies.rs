use crate::local_embed::unicode_lowercase;
use crate::paths::{file_stem, file_stem_of};
use crate::scanner::{
    byte_span, chars_before, function_query, function_query_spec, get_lang_config, lang_config_spec,
    lines_before, name_capture, name_capture_exec, names_ok, names_valid, path_language,
    path_language_spec, span_ok, span_text, valid_span,
};
use crate::syntax::{run_query, syntax_matches, CaptureSpan, Grammar};
use crate::text::{chars_eq, chars_of, is_whitespace, is_ws, lines, string_of};
use vstd::prelude::*;

verus! {

/// The punctuation on which captured import and call text is split.
pub open spec fn capture_punctuation() -> Seq<char> {
    seq![':', ':', ';', '{', '}', ',', '.', '/', '\'', '"', '(', ')', '[', ']']
}

/// Whether captured text is split at `c`: white space or one of
/// `::;{},./'"()[]`.
pub open spec fn is_capture_separator(c: char) -> bool {
    is_ws(c) || capture_punctuation().contains(c)
}

fn capture_separator(c: char) -> (b: bool)
    ensures
        b == is_capture_separator(c),
{
    if is_whitespace(c) {
        return true;
    }
    let punct: [char; 14] = [':', ':', ';', '{', '}', ',', '.', '/', '\'', '"', '(', ')', '[', ']'];
    let ghost lit = capture_punctuation();
    assert(punct@ =~= lit);
    let mut i: usize = 0;
    while i < 14
        invariant
            i <= 14,
            punct@ == lit,
            lit == capture_punctuation(),
            forall|j: int| 0 <= j < i ==> lit[j] != c,
        decreases 14 - i,
    {
        if punct[i] == c {
            assert(lit[i as int] == c);
            assert(lit.contains(c));
            return true;
        }
        i = i + 1;
    }
    assert(!lit.contains(c));
    false
}

/// The non-empty pieces of `s` between separators, `cur` being the part of
/// the current piece read so far.
pub open spec fn words_from(s: Seq<char>, cur: Seq<char>) -> Seq<Seq<char>>
    decreases s.len(),
{
    let done = if cur.len() > 0 {
        seq![cur]
    } else {
        seq![]
    };
    if s.len() == 0 {
        done
    } else if is_capture_separator(s[0]) {
        done + words_from(s.drop_first(), seq![])
    } else {
        words_from(s.drop_first(), cur.push(s[0]))
    }
}

/// The words of captured text: its non-empty pieces between separators.
pub open spec fn capture_words(s: Seq<char>) -> Seq<Seq<char>> {
    words_from(s, seq![])
}

/// The words of captured text (see [`capture_words`]).
pub fn split_tokens(text: &str) -> (out: Vec<String>)
    ensures
        out.deep_view() == capture_words(text@),
{
    let cs = chars_of(text);
    let mut out: Vec<String> = Vec::new();
    let mut cur: Vec<char> = Vec::new();
    let mut i: usize = 0;
    assert(cs@.skip(0) =~= cs@);
    while i < cs.len()
        invariant
            i <= cs@.len(),
            cs@ == text@,
            out.deep_view() + words_from(cs@.skip(i as int), cur@) == capture_words(text@),
        decreases cs@.len() - i,
    {
        let c = cs[i];
        assert(cs@.skip(i as int).drop_first() =~= cs@.skip(i + 1));
        if capture_separator(c) {
            let ghost before = out.deep_view();
            let ghost cv = cur@;
            if cur.len() > 0 {
                let w = string_of(cur.as_slice());
                out.push(w);
                assert(out.deep_view() =~= before + seq![cv]);
            } else {
                assert(before + Seq::<Seq<char>>::empty() =~= before);
            }
            assert(before + (if cv.len() > 0 {
                seq![cv]
            } else {
                seq![]
            } + words_from(cs@.skip(i + 1), seq![])) =~= out.deep_view() + words_from(
                cs@.skip(i + 1),
                seq![],
            ));
            cur = Vec::new();
        } else {
            cur.push(c);
        }
        i = i + 1;
    }
    let ghost before = out.deep_view();
    let ghost cv = cur@;
    if cur.len() > 0 {
        let w = string_of(cur.as_slice());
        out.push(w);
        assert(out.deep_view() =~= before + seq![cv]);
    } else {
        assert(before + Seq::<Seq<char>>::empty() =~= before);
    }
    assert(cs@.skip(i as int) =~= Seq::<char>::empty());
    out
}

/// Whether `w` is one of `words`.
pub fn contains_word(words: &[String], w: &[char]) -> (b: bool)
    ensures
        b == words.deep_view().contains(w@),
{
    let ghost wv = words.deep_view();
    let mut i: usize = 0;
    while i < words.len()
        invariant
            i <= words@.len(),
            wv == words.deep_view(),
            forall|j: int| 0 <= j < i ==> wv[j] != w@,
        decreases words@.len() - i,
    {
        let c = chars_of(words[i].as_str());
        assert(wv[i as int] == words@[i as int]@);
        if chars_eq(c.as_slice(), w) {
            return true;
        }
        i = i + 1;
    }
    false
}

/// The (id, text) pairs with their texts as character sequences.
pub open spec fn named_views(rows: Seq<(i64, String)>) -> Seq<(i64, Seq<char>)> {
    rows.map_values(|r: (i64, String)| (r.0, r.1@))
}

/// The files a captured import refers to: every file other than `id` whose
/// non-empty stem is one of the captured words, in the order given.
pub open spec fn import_ids(
    id: i64,
    words: Seq<Seq<char>>,
    stems: Seq<(i64, Seq<char>)>,
) -> Seq<i64>
    decreases stems.len(),
{
    if stems.len() == 0 {
        seq![]
    } else {
        let (tid, stem) = stems.last();
        import_ids(id, words, stems.drop_last()) + if stem.len() > 0 && tid != id
            && words.contains(stem) {
            seq![tid]
        } else {
            seq![]
        }
    }
}

/// The files a captured import refers to (see [`import_ids`]); `stems` pairs
/// each file id with the stem of its path.
pub fn import_targets(id: i64, words: &[String], stems: &[(i64, String)]) -> (r: Vec<i64>)
    ensures
        r@ == import_ids(id, words.deep_view(), named_views(stems@)),
{
    let ghost sv = named_views(stems@);
    let mut r: Vec<i64> = Vec::new();
    let mut i: usize = 0;
    while i < stems.len()
        invariant
            i <= stems@.len(),
            sv == named_views(stems@),
            r@ == import_ids(id, words.deep_view(), sv.take(i as int)),
        decreases stems@.len() - i,
    {
        let tid = stems[i].0;
        let stem = chars_of(stems[i].1.as_str());
        if stem.len() > 0 && tid != id && contains_word(words, stem.as_slice()) {
            r.push(tid);
        }
        i = i + 1;
        assert(sv.take(i as int).drop_last() =~= sv.take((i - 1) as int));
        assert(r@ =~= import_ids(id, words.deep_view(), sv.take(i as int)));
    }
    assert(sv.take(i as int) =~= sv);
    r
}

/// The files named by one lowercased word of a call: those other than `id`
/// whose lowercased stem is the word, in the order given.
pub open spec fn ids_named(id: i64, word: Seq<char>, stems: Seq<(i64, Seq<char>)>) -> Seq<i64>
    decreases stems.len(),
{
    if stems.len() == 0 {
        seq![]
    } else {
        ids_named(id, word, stems.drop_last()) + if stems.last().1 == word && stems.last().0
            != id {
            seq![stems.last().0]
        } else {
            seq![]
        }
    }
}

/// The files a captured call refers to: for each word in order, lowercased,
/// the files named by it.
pub open spec fn call_ids(
    id: i64,
    words: Seq<Seq<char>>,
    lower_stems: Seq<(i64, Seq<char>)>,
) -> Seq<i64>
    decreases words.len(),
{
    if words.len() == 0 {
        seq![]
    } else {
        call_ids(id, words.drop_last(), lower_stems) + ids_named(
            id,
            unicode_lowercase(words.last()),
            lower_stems,
        )
    }
}

fn ids_named_exec(id: i64, word: &[char], lower_stems: &[(i64, String)]) -> (r: Vec<i64>)
    ensures
        r@ == ids_named(id, word@, named_views(lower_stems@)),
{
    let ghost sv = named_views(lower_stems@);
    let mut r: Vec<i64> = Vec::new();
    let mut i: usize = 0;
    while i < lower_stems.len()
        invariant
            i <= lower_stems@.len(),
            sv == named_views(lower_stems@),
            r@ == ids_named(id, word@, sv.take(i as int)),
        decreases lower_stems@.len() - i,
    {
        let s = chars_of(lower_stems[i].1.as_str());
        if chars_eq(s.as_slice(), word) && lower_stems[i].0 != id {
            r.push(lower_stems[i].0);
        }
        i = i + 1;
        assert(sv.take(i as int).drop_last() =~= sv.take((i - 1) as int));
        assert(r@ =~= ids_named(id, word@, sv.take(i as int)));
    }
    assert(sv.take(i as int) =~= sv);
    r
}

/// The files a captured call refers to (see [`call_ids`]); `lower_stems`
/// pairs each file id with the lowercased stem of its path.
pub fn call_targets(id: i64, words: &[String], lower_stems: &[(i64, String)]) -> (r: Vec<i64>)
    ensures
        r@ == call_ids(id, words.deep_view(), named_views(lower_stems@)),
{
    let ghost wv = words.deep_view();
    let mut r: Vec<i64> = Vec::new();
    let mut i: usize = 0;
    while i < words.len()
        invariant
            i <= words@.len(),
            wv == words.deep_view(),
            r@ == call_ids(id, wv.take(i as int), named_views(lower_stems@)),
        decreases words@.len() - i,
    {
        let low = words[i].as_str().to_lowercase();
        let lc = chars_of(low.as_str());
        assert(wv[i as int] == words@[i as int]@);
        let mut more = ids_named_exec(id, lc.as_slice(), lower_stems);
        r.append(&mut more);
        i = i + 1;
        assert(wv.take(i as int).drop_last() =~= wv.take((i - 1) as int));
    }
    assert(wv.take(i as int) =~= wv);
    r
}

/// The lowercase form of a name, as `str::to_lowercase` gives it.
pub fn lowercase(s: &str) -> (r: String)
    ensures
        r@ == unicode_lowercase(s@),
{
    s.to_lowercase()
}

/// An indexed function: its id, its lowercased name, the node of the file
/// that holds it (when that file is indexed), its name as written and the
/// line its definition starts on.
pub struct FunctionRef {
    pub id: i64,
    pub name_lower: String,
    pub file_node: Option<i64>,
    pub name: String,
    pub start_line: usize,
}

/// An indexed function as plain values: id, lowercased name, file node,
/// name and start line.
pub type FunctionView = (i64, Seq<char>, Option<i64>, Seq<char>, usize);

/// A call between indexed functions: from the calling function to the
/// called one; `intra` when the called function is in the calling file.
#[derive(Clone, Copy, Debug, PartialEq, Eq, Structural)]
pub struct FunctionEdge {
    pub source: i64,
    pub target: i64,
    pub intra: bool,
}

/// A function as plain values.
pub open spec fn fref(f: FunctionRef) -> FunctionView {
    (f.id, f.name_lower@, f.file_node, f.name@, f.start_line)
}

/// The edges one lowercased word of a call made by function `caller` in file
/// `id` gives: one to every function of that name, in the order of `funcs`,
/// `intra` when that function is in file `id`.
pub open spec fn word_edges(
    caller: i64,
    id: i64,
    w: Seq<char>,
    funcs: Seq<FunctionView>,
) -> Seq<FunctionEdge>
    decreases funcs.len(),
{
    if funcs.len() == 0 {
        seq![]
    } else {
        let f = funcs.last();
        word_edges(caller, id, w, funcs.drop_last()) + if f.1 == w {
            seq![FunctionEdge { source: caller, target: f.0, intra: f.2 == Some(id) }]
        } else {
            seq![]
        }
    }
}

/// The edges of every word of a call made by `caller`, lowercased, in order.
pub open spec fn call_edges(
    caller: i64,
    id: i64,
    words: Seq<Seq<char>>,
    funcs: Seq<FunctionView>,
) -> Seq<FunctionEdge>
    decreases words.len(),
{
    if words.len() == 0 {
        seq![]
    } else {
        call_edges(caller, id, words.drop_last(), funcs) + word_edges(
            caller,
            id,
            unicode_lowercase(words.last()),
            funcs,
        )
    }
}

fn word_edges_exec(caller: i64, id: i64, w: &[char], funcs: &[FunctionRef]) -> (r: Vec<FunctionEdge>)
    ensures
        r@ == word_edges(caller, id, w@, funcs@.map_values(|f: FunctionRef| fref(f))),
{
    let ghost fv = funcs@.map_values(|f: FunctionRef| fref(f));
    let mut r: Vec<FunctionEdge> = Vec::new();
    let mut i: usize = 0;
    while i < funcs.len()
        invariant
            i <= funcs@.len(),
            fv == funcs@.map_values(|f: FunctionRef| fref(f)),
            r@ == word_edges(caller, id, w@, fv.take(i as int)),
        decreases funcs@.len() - i,
    {
        let f = &funcs[i];
        let n = chars_of(f.name_lower.as_str());
        let same = match f.file_node {
            Some(node) => node == id,
            None => false,
        };
        if chars_eq(n.as_slice(), w) {
            r.push(FunctionEdge { source: caller, target: f.id, intra: same });
        }
        i = i + 1;
        assert(fv.take(i as int).drop_last() =~= fv.take((i - 1) as int));
        assert(r@ =~= word_edges(caller, id, w@, fv.take(i as int)));
    }
    assert(fv.take(i as int) =~= fv);
    r
}

/// The calls between functions that one captured call gives, when it is made
/// by function `caller` of file `id` (see [`call_edges`]).
pub fn function_call_edges(caller: i64, id: i64, words: &[String], funcs: &[FunctionRef]) -> (r: Vec<
    FunctionEdge,
>)
    ensures
        r@ == call_edges(caller, id, words.deep_view(), funcs@.map_values(|f: FunctionRef| fref(f))),
{
    let ghost wv = words.deep_view();
    let mut r: Vec<FunctionEdge> = Vec::new();
    let mut i: usize = 0;
    while i < words.len()
        invariant
            i <= words@.len(),
            wv == words.deep_view(),
            r@ == call_edges(caller, id, wv.take(i as int), funcs@.map_values(|f: FunctionRef| fref(f))),
        decreases words@.len() - i,
    {
        let low = words[i].as_str().to_lowercase();
        let lc = chars_of(low.as_str());
        assert(wv[i as int] == words@[i as int]@);
        let mut a = word_edges_exec(caller, id, lc.as_slice(), funcs);
        r.append(&mut a);
        i = i + 1;
        assert(wv.take(i as int).drop_last() =~= wv.take((i - 1) as int));
    }
    assert(wv.take(i as int) =~= wv);
    r
}

/// The captures of one match, each as its text and the byte where it starts.
pub open spec fn match_items(m: Seq<CaptureSpan>, content: Seq<char>) -> Seq<(Seq<char>, usize)> {
    m.map_values(|c: CaptureSpan| (byte_span(content, c.1 as int, c.2 as int), c.1))
}

/// The captures of every match, match by match, each as its text and the
/// byte where it starts.
pub open spec fn capture_items(ms: Seq<Seq<CaptureSpan>>, content: Seq<char>) -> Seq<(Seq<char>, usize)>
    decreases ms.len(),
{
    if ms.len() == 0 {
        seq![]
    } else {
        capture_items(ms.drop_last(), content) + match_items(ms.last(), content)
    }
}

/// The texts of captured items.
pub open spec fn item_texts(items: Seq<(Seq<char>, usize)>) -> Seq<Seq<char>> {
    items.map_values(|i: (Seq<char>, usize)| i.0)
}

/// Every capture of the matches is a span of the text.
pub open spec fn spans_valid(ms: Seq<Seq<CaptureSpan>>, content: Seq<char>) -> bool {
    forall|i: int, j: int|
        0 <= i < ms.len() && 0 <= j < ms[i].len() ==> valid_span(
            content,
            #[trigger] ms[i][j].1 as int,
            ms[i][j].2 as int,
        )
}

/// Whether every capture of the matches is a span of the text.
pub fn spans_ok(matches: &Vec<Vec<(String, usize, usize)>>, content: &str) -> (b: bool)
    ensures
        b == spans_valid(matches.deep_view(), content@),
{
    let ghost mv = matches.deep_view();
    let mut i: usize = 0;
    while i < matches.len()
        invariant
            i <= matches@.len(),
            mv == matches.deep_view(),
            forall|a: int, j: int|
                0 <= a < i && 0 <= j < mv[a].len() ==> valid_span(
                    content@,
                    #[trigger] mv[a][j].1 as int,
                    mv[a][j].2 as int,
                ),
        decreases matches@.len() - i,
    {
        let m = &matches[i];
        assert(mv[i as int] == m.deep_view());
        let mut j: usize = 0;
        while j < m.len()
            invariant
                i < matches@.len(),
                j <= m@.len(),
                m == matches@[i as int],
                mv == matches.deep_view(),
                mv[i as int] == m.deep_view(),
                forall|a: int, k: int|
                    0 <= a < i && 0 <= k < mv[a].len() ==> valid_span(
                        content@,
                        #[trigger] mv[a][k].1 as int,
                        mv[a][k].2 as int,
                    ),
                forall|k: int|
                    0 <= k < j ==> valid_span(
                        content@,
                        #[trigger] mv[i as int][k].1 as int,
                        mv[i as int][k].2 as int,
                    ),
            decreases m@.len() - j,
        {
            assert(mv[i as int][j as int] == m@[j as int].deep_view());
            if !span_ok(content, m[j].1, m[j].2) {
                assert(!valid_span(
                    content@,
                    mv[i as int][j as int].1 as int,
                    mv[i as int][j as int].2 as int,
                ));
                return false;
            }
            j = j + 1;
        }
        i = i + 1;
    }
    true
}

/// The captures of every match as texts and start bytes (see
/// [`capture_items`]).
pub fn captured_items(matches: &Vec<Vec<(String, usize, usize)>>, content: &str) -> (r: Vec<
    (String, usize),
>)
    requires
        spans_valid(matches.deep_view(), content@),
    ensures
        r.deep_view() == capture_items(matches.deep_view(), content@),
{
    let ghost mv = matches.deep_view();
    let mut r: Vec<(String, usize)> = Vec::new();
    let mut i: usize = 0;
    while i < matches.len()
        invariant
            i <= matches@.len(),
            mv == matches.deep_view(),
            spans_valid(mv, content@),
            r.deep_view() == capture_items(mv.take(i as int), content@),
        decreases matches@.len() - i,
    {
        let m = &matches[i];
        assert(mv[i as int] == m.deep_view());
        assert(mv.take(i + 1).drop_last() =~= mv.take(i as int));
        let ghost base = r.deep_view();
        let mut j: usize = 0;
        while j < m.len()
            invariant
                i < matches@.len(),
                j <= m@.len(),
                m == matches@[i as int],
                mv == matches.deep_view(),
                mv[i as int] == m.deep_view(),
                spans_valid(mv, content@),
                r.deep_view() == base + match_items(mv[i as int].take(j as int), content@),
            decreases m@.len() - j,
        {
            assert(mv[i as int][j as int] == m@[j as int].deep_view());
            assert(valid_span(content@, mv[i as int][j as int].1 as int, mv[i as int][j as int].2 as int));
            let t = span_text(content, m[j].1, m[j].2);
            let ghost before = r.deep_view();
            let ghost tv = t@;
            r.push((t, m[j].1));
            assert(r.deep_view() =~= before.push((tv, m@[j as int].1)));
            j = j + 1;
            assert(match_items(mv[i as int].take(j as int), content@) =~= match_items(
                mv[i as int].take(j - 1),
                content@,
            ).push((byte_span(content@, mv[i as int][j - 1].1 as int, mv[i as int][j - 1].2 as int), mv[i as int][j - 1].1)));
        }
        assert(mv[i as int].take(j as int) =~= mv[i as int]);
        i = i + 1;
    }
    assert(mv.take(i as int) =~= mv);
    r
}

/// The files the captured imports refer to, capture by capture.
pub open spec fn import_refs(id: i64, texts: Seq<Seq<char>>, stems: Seq<(i64, Seq<char>)>) -> Seq<
    i64,
>
    decreases texts.len(),
{
    if texts.len() == 0 {
        seq![]
    } else {
        import_refs(id, texts.drop_last(), stems) + import_ids(
            id,
            capture_words(texts.last()),
            stems,
        )
    }
}

/// The files the captured calls refer to, capture by capture.
pub open spec fn call_refs(id: i64, texts: Seq<Seq<char>>, lower_stems: Seq<(i64, Seq<char>)>) -> Seq<
    i64,
>
    decreases texts.len(),
{
    if texts.len() == 0 {
        seq![]
    } else {
        call_refs(id, texts.drop_last(), lower_stems) + call_ids(
            id,
            capture_words(texts.last()),
            lower_stems,
        )
    }
}

/// The first capture of a match that is not its `name` capture: the
/// captured definition.
pub open spec fn body_capture(m: Seq<CaptureSpan>) -> Option<CaptureSpan>
    decreases m.len(),
{
    if m.len() == 0 {
        None
    } else if m[0].0 != "name"@ {
        Some(m[0])
    } else {
        body_capture(m.drop_first())
    }
}

fn body_capture_exec(m: &Vec<(String, usize, usize)>) -> (r: Option<(usize, usize)>)
    ensures
        match r {
            None => body_capture(m.deep_view()) is None,
            Some(p) => body_capture(m.deep_view()) matches Some(c) && c.1 == p.0 && c.2 == p.1,
        },
{
    let ghost mv = m.deep_view();
    let ghost key: Seq<char> = "name"@;
    proof {
        reveal_strlit("name");
    }
    assert(key =~= seq!['n', 'a', 'm', 'e']);
    let mut i: usize = 0;
    assert(mv.skip(0) =~= mv);
    while i < m.len()
        invariant
            i <= m@.len(),
            mv == m.deep_view(),
            key == "name"@,
            key =~= seq!['n', 'a', 'm', 'e'],
            body_capture(mv) == body_capture(mv.skip(i as int)),
        decreases m@.len() - i,
    {
        let ghost rest = mv.skip(i as int);
        assert(rest.drop_first() =~= mv.skip(i + 1));
        assert(rest[0] == mv[i as int]);
        let n = chars_of(m[i].0.as_str());
        assert(mv[i as int].0 == m@[i as int].0@);
        let name: [char; 4] = ['n', 'a', 'm', 'e'];
        assert(name@ =~= key);
        if !chars_eq(n.as_slice(), &name) {
            assert(body_capture(rest) == Some(mv[i as int]));
            return Some((m[i].1, m[i].2));
        }
        assert(body_capture(rest) == body_capture(rest.drop_first()));
        i = i + 1;
    }
    None
}

/// The definition one match of a function query gives: the text of its
/// `name` capture, how many lines lie before that name (the definition
/// starts on the line after them) and the byte range of the captured
/// definition.
pub open spec fn definition_of(m: Seq<CaptureSpan>, content: Seq<char>) -> Seq<
    (Seq<char>, usize, usize, usize),
> {
    match (name_capture(m), body_capture(m)) {
        (Some(n), Some(b)) => seq![
            (
                byte_span(content, n.1 as int, n.2 as int),
                lines(chars_before(content, n.1 as int)).len() as usize,
                b.1,
                b.2,
            ),
        ],
        _ => seq![],
    }
}

/// The definitions the matches of a function query give, in order.
pub open spec fn definitions(ms: Seq<Seq<CaptureSpan>>, content: Seq<char>) -> Seq<
    (Seq<char>, usize, usize, usize),
>
    decreases ms.len(),
{
    if ms.len() == 0 {
        seq![]
    } else {
        definitions(ms.drop_last(), content) + definition_of(ms.last(), content)
    }
}

/// The definitions of a file (see [`definitions`]).
pub fn function_definitions(matches: &Vec<Vec<(String, usize, usize)>>, content: &str) -> (r: Vec<
    (String, usize, usize, usize),
>)
    requires
        names_valid(matches.deep_view(), content@),
    ensures
        r.deep_view() == definitions(matches.deep_view(), content@),
{
    let ghost mv = matches.deep_view();
    let mut r: Vec<(String, usize, usize, usize)> = Vec::new();
    let mut i: usize = 0;
    while i < matches.len()
        invariant
            i <= matches@.len(),
            mv == matches.deep_view(),
            names_valid(mv, content@),
            r.deep_view() == definitions(mv.take(i as int), content@),
        decreases matches@.len() - i,
    {
        assert(mv.take(i + 1).drop_last() =~= mv.take(i as int));
        assert(mv[i as int] == matches@[i as int].deep_view());
        let ghost before = r.deep_view();
        let n = name_capture_exec(&matches[i]);
        let b = body_capture_exec(&matches[i]);
        match (n, b) {
            (Some((ns, ne)), Some((bs, be))) => {
                assert(name_capture(mv[i as int]) is Some);
                let t = span_text(content, ns, ne);
                let before_name = lines_before(content, ns);
                let ghost tv = t@;
                r.push((t, before_name, bs, be));
                assert(r.deep_view() =~= before.push((tv, before_name, bs, be)));
            },
            _ => {
            },
        }
        i = i + 1;
        assert(r.deep_view() =~= definitions(mv.take(i as int), content@));
    }
    assert(mv.take(i as int) =~= mv);
    r
}

/// The definition that encloses byte `p`: the last one listed whose range
/// holds it.
pub open spec fn enclosing(defs: Seq<(Seq<char>, usize, usize, usize)>, p: int) -> Option<
    (Seq<char>, usize, usize, usize),
>
    decreases defs.len(),
{
    if defs.len() == 0 {
        None
    } else if defs.last().2 <= p && p < defs.last().3 {
        Some(defs.last())
    } else {
        enclosing(defs.drop_last(), p)
    }
}

/// The position of the definition that encloses byte `p` (see
/// [`enclosing`]).
pub fn enclosing_definition(defs: &Vec<(String, usize, usize, usize)>, p: usize) -> (r: Option<usize>)
    ensures
        match r {
            None => enclosing(defs.deep_view(), p as int) is None,
            Some(k) => k < defs@.len() && enclosing(defs.deep_view(), p as int) == Some(
                defs.deep_view()[k as int],
            ),
        },
{
    let ghost dv = defs.deep_view();
    let mut k: usize = defs.len();
    assert(dv.take(k as int) =~= dv);
    while k > 0
        invariant
            k <= defs@.len(),
            dv == defs.deep_view(),
            enclosing(dv, p as int) == enclosing(dv.take(k as int), p as int),
        decreases k,
    {
        assert(dv.take(k as int).drop_last() =~= dv.take(k - 1));
        assert(dv.take(k as int).last() == dv[k - 1]);
        assert(dv[k - 1] == defs@[k - 1].deep_view());
        if defs[k - 1].2 <= p && p < defs[k - 1].3 {
            return Some(k - 1);
        }
        k = k - 1;
    }
    None
}

/// The indexed function of file `id` with exactly the given name whose
/// definition starts on the line after the first `before` lines: the first
/// one listed.
pub open spec fn function_named(id: i64, name: Seq<char>, before: int, funcs: Seq<FunctionView>) -> Option<
    i64,
>
    decreases funcs.len(),
{
    if funcs.len() == 0 {
        None
    } else if funcs[0].2 == Some(id) && funcs[0].3 == name && funcs[0].4 == before + 1 {
        Some(funcs[0].0)
    } else {
        function_named(id, name, before, funcs.drop_first())
    }
}

/// The indexed function of file `id` with a given name that starts after
/// `before` lines (see [`function_named`]).
pub fn function_named_in(id: i64, name: &[char], before: usize, funcs: &[FunctionRef]) -> (r: Option<i64>)
    ensures
        r == function_named(id, name@, before as int, funcs@.map_values(|f: FunctionRef| fref(f))),
{
    let ghost fv = funcs@.map_values(|f: FunctionRef| fref(f));
    let mut i: usize = 0;
    assert(fv.skip(0) =~= fv);
    while i < funcs.len()
        invariant
            i <= funcs@.len(),
            fv == funcs@.map_values(|f: FunctionRef| fref(f)),
            function_named(id, name@, before as int, fv) == function_named(
                id,
                name@,
                before as int,
                fv.skip(i as int),
            ),
        decreases funcs@.len() - i,
    {
        let ghost rest = fv.skip(i as int);
        assert(rest.drop_first() =~= fv.skip(i + 1));
        assert(rest[0] == fv[i as int]);
        let f = &funcs[i];
        let n = chars_of(f.name.as_str());
        let same = match f.file_node {
            Some(node) => node == id,
            None => false,
        };
        if same && f.start_line >= 1 && f.start_line - 1 == before && chars_eq(n.as_slice(), name) {
            return Some(f.id);
        }
        i = i + 1;
    }
    None
}

/// The calls between functions that one captured call, with its text and
/// start byte, gives in file `id`: the function whose definition encloses
/// the call is the caller, and each word of the call names the callees.
/// A call outside every indexed function gives none.
pub open spec fn call_site_edges(
    id: i64,
    item: (Seq<char>, usize),
    defs: Seq<(Seq<char>, usize, usize, usize)>,
    funcs: Seq<FunctionView>,
) -> Seq<FunctionEdge> {
    match enclosing(defs, item.1 as int) {
        None => seq![],
        Some(d) => match function_named(id, d.0, d.1 as int, funcs) {
            None => seq![],
            Some(caller) => call_edges(caller, id, capture_words(item.0), funcs),
        },
    }
}

/// The calls between functions that the captured calls give, capture by
/// capture.
pub open spec fn function_refs(
    id: i64,
    items: Seq<(Seq<char>, usize)>,
    defs: Seq<(Seq<char>, usize, usize, usize)>,
    funcs: Seq<FunctionView>,
) -> Seq<FunctionEdge>
    decreases items.len(),
{
    if items.len() == 0 {
        seq![]
    } else {
        function_refs(id, items.drop_last(), defs, funcs) + call_site_edges(
            id,
            items.last(),
            defs,
            funcs,
        )
    }
}

/// Why the references of a file could not be found.
#[derive(Clone, Copy, Debug, PartialEq, Eq, Structural)]
pub enum AnalysisError {
    /// The parser refused the grammar of the file's language.
    GrammarRefused,
}

/// The captures of a query run on a file as texts and start bytes: none when
/// there is no tree or the query does not compile; `Ok(None)` when a capture
/// is not a span of the text.
pub open spec fn query_items(grammar: Grammar, query: Seq<char>, content: Seq<char>) -> Result<
    Option<Seq<(Seq<char>, usize)>>,
    AnalysisError,
> {
    match syntax_matches(grammar, query, content) {
        None => Err(AnalysisError::GrammarRefused),
        Some(None) => Ok(Some(seq![])),
        Some(Some(ms)) => if spans_valid(ms, content) {
            Ok(Some(capture_items(ms, content)))
        } else {
            Ok(None)
        },
    }
}

/// The definitions a function query finds in a file: none without a query,
/// a tree or a compiled query; `Ok(None)` when a `name` capture is not a
/// span of the text.
pub open spec fn query_definitions(grammar: Grammar, query: Option<Seq<char>>, content: Seq<char>) -> Result<
    Option<Seq<(Seq<char>, usize, usize, usize)>>,
    AnalysisError,
> {
    match query {
        None => Ok(Some(seq![])),
        Some(q) => match syntax_matches(grammar, q, content) {
            None => Err(AnalysisError::GrammarRefused),
            Some(None) => Ok(Some(seq![])),
            Some(Some(ms)) => if names_valid(ms, content) {
                Ok(Some(definitions(ms, content)))
            } else {
                Ok(None)
            },
        },
    }
}

/// What one file of the project refers to: the files its imports name, the
/// files its calls name, and the calls between functions.
pub struct FileReferences {
    pub imports: Vec<i64>,
    pub calls: Vec<i64>,
    pub function_calls: Vec<FunctionEdge>,
}

/// What file `id` at `path` with text `content` refers to, given the stems
/// of the project's files, their lowercased stems and the indexed functions:
/// `Ok(None)` when its language is not analysed or a capture is not a span
/// of the text; an error when the parser refuses the grammar.
pub open spec fn references_of(
    id: i64,
    path: Seq<char>,
    content: Seq<char>,
    stems: Seq<(i64, Seq<char>)>,
    lower_stems: Seq<(i64, Seq<char>)>,
    funcs: Seq<FunctionView>,
) -> Result<Option<(Seq<i64>, Seq<i64>, Seq<FunctionEdge>)>, AnalysisError> {
    match path_language_spec(path) {
        None => Ok(None),
        Some(lang) => match lang_config_spec(lang) {
            None => Ok(None),
            Some(cfg) => match query_items(cfg.0, cfg.1, content) {
                Err(e) => Err(e),
                Ok(None) => Ok(None),
                Ok(Some(it)) => match query_items(cfg.0, cfg.2, content) {
                    Err(e) => Err(e),
                    Ok(None) => Ok(None),
                    Ok(Some(ct)) => match query_definitions(
                        cfg.0,
                        function_query_spec(lang),
                        content,
                    ) {
                        Err(e) => Err(e),
                        Ok(None) => Ok(None),
                        Ok(Some(ds)) => Ok(
                            Some(
                                (
                                    import_refs(id, item_texts(it), stems),
                                    call_refs(id, item_texts(ct), lower_stems),
                                    function_refs(id, ct, ds, funcs),
                                ),
                            ),
                        ),
                    },
                },
            },
        },
    }
}

/// A query outcome as plain values.
pub open spec fn items_view(r: Result<Option<Vec<(String, usize)>>, AnalysisError>) -> Result<
    Option<Seq<(Seq<char>, usize)>>,
    AnalysisError,
> {
    match r {
        Err(e) => Err(e),
        Ok(None) => Ok(None),
        Ok(Some(v)) => Ok(Some(v.deep_view())),
    }
}

/// A definitions outcome as plain values.
pub open spec fn definitions_view(r: Result<Option<Vec<(String, usize, usize, usize)>>, AnalysisError>) -> Result<
    Option<Seq<(Seq<char>, usize, usize, usize)>>,
    AnalysisError,
> {
    match r {
        Err(e) => Err(e),
        Ok(None) => Ok(None),
        Ok(Some(v)) => Ok(Some(v.deep_view())),
    }
}

fn run_items(grammar: Grammar, query: &str, content: &str) -> (r: Result<
    Option<Vec<(String, usize)>>,
    AnalysisError,
>)
    ensures
        items_view(r) == query_items(grammar, query@, content@),
{
    match run_query(grammar, query, content) {
        None => Err(AnalysisError::GrammarRefused),
        Some(None) => {
            let v: Vec<(String, usize)> = Vec::new();
            assert(v.deep_view() =~= Seq::<(Seq<char>, usize)>::empty());
            Ok(Some(v))
        },
        Some(Some(ms)) => {
            if spans_ok(&ms, content) {
                let v = captured_items(&ms, content);
                Ok(Some(v))
            } else {
                Ok(None)
            }
        },
    }
}

fn run_definitions(grammar: Grammar, query: Option<&'static str>, content: &str) -> (r: Result<
    Option<Vec<(String, usize, usize, usize)>>,
    AnalysisError,
>)
    ensures
        definitions_view(r) == query_definitions(
            grammar,
            match query {
                Some(q) => Some(q@),
                None => None,
            },
            content@,
        ),
{
    let empty: Vec<(String, usize, usize, usize)> = Vec::new();
    assert(empty.deep_view() =~= Seq::<(Seq<char>, usize, usize, usize)>::empty());
    let q = match query {
        Some(q) => q,
        None => return Ok(Some(empty)),
    };
    match run_query(grammar, q, content) {
        None => Err(AnalysisError::GrammarRefused),
        Some(None) => Ok(Some(empty)),
        Some(Some(ms)) => {
            if names_ok(&ms, content) {
                Ok(Some(function_definitions(&ms, content)))
            } else {
                Ok(None)
            }
        },
    }
}

/// The spec outcome of a file's references as plain values.
pub open spec fn references_view(r: Result<Option<FileReferences>, AnalysisError>) -> Result<
    Option<(Seq<i64>, Seq<i64>, Seq<FunctionEdge>)>,
    AnalysisError,
> {
    match r {
        Err(e) => Err(e),
        Ok(None) => Ok(None),
        Ok(Some(refs)) => Ok(Some((refs.imports@, refs.calls@, refs.function_calls@))),
    }
}

/// What a file refers to (see [`references_of`]).
pub fn file_references(
    id: i64,
    path: &str,
    content: &str,
    stems: &[(i64, String)],
    lower_stems: &[(i64, String)],
    funcs: &[FunctionRef],
) -> (r: Result<Option<FileReferences>, AnalysisError>)
    ensures
        references_view(r) == references_of(
            id,
            path@,
            content@,
            named_views(stems@),
            named_views(lower_stems@),
            funcs@.map_values(|f: FunctionRef| fref(f)),
        ),
{
    let lang = match path_language(path) {
        Some(l) => l,
        None => return Ok(None),
    };
    let cfg = match get_lang_config(lang.as_str()) {
        Some(c) => c,
        None => return Ok(None),
    };
    let call_query = match cfg.call_query {
        Some(q) => q,
        None => return Ok(None),
    };
    let import_items = match run_items(cfg.grammar, cfg.import_query, content) {
        Err(e) => return Err(e),
        Ok(None) => return Ok(None),
        Ok(Some(t)) => t,
    };
    let call_items = match run_items(cfg.grammar, call_query, content) {
        Err(e) => return Err(e),
        Ok(None) => return Ok(None),
        Ok(Some(t)) => t,
    };
    let defs = match run_definitions(cfg.grammar, function_query(lang.as_str()), content) {
        Err(e) => return Err(e),
        Ok(None) => return Ok(None),
        Ok(Some(d)) => d,
    };
    let ghost it = import_items.deep_view();
    let ghost ct = call_items.deep_view();
    let ghost dv = defs.deep_view();
    let ghost sv = named_views(stems@);
    let ghost lv = named_views(lower_stems@);
    let ghost fv = funcs@.map_values(|f: FunctionRef| fref(f));
    let mut imports: Vec<i64> = Vec::new();
    let mut i: usize = 0;
    while i < import_items.len()
        invariant
            i <= import_items@.len(),
            it == import_items.deep_view(),
            sv == named_views(stems@),
            imports@ == import_refs(id, item_texts(it.take(i as int)), sv),
        decreases import_items@.len() - i,
    {
        let words = split_tokens(import_items[i].0.as_str());
        let mut more = import_targets(id, words.as_slice(), stems);
        assert(it[i as int].0 == import_items@[i as int].0@);
        assert(item_texts(it.take(i + 1)).drop_last() =~= item_texts(it.take(i as int)));
        assert(item_texts(it.take(i + 1)).last() == it[i as int].0);
        imports.append(&mut more);
        i = i + 1;
    }
    let mut calls: Vec<i64> = Vec::new();
    let mut function_calls: Vec<FunctionEdge> = Vec::new();
    let mut j: usize = 0;
    while j < call_items.len()
        invariant
            j <= call_items@.len(),
            ct == call_items.deep_view(),
            dv == defs.deep_view(),
            lv == named_views(lower_stems@),
            fv == funcs@.map_values(|f: FunctionRef| fref(f)),
            calls@ == call_refs(id, item_texts(ct.take(j as int)), lv),
            function_calls@ == function_refs(id, ct.take(j as int), dv, fv),
        decreases call_items@.len() - j,
    {
        let text = call_items[j].0.as_str();
        let start = call_items[j].1;
        assert(ct[j as int] == (call_items@[j as int].0@, call_items@[j as int].1));
        assert(ct.take(j + 1).drop_last() =~= ct.take(j as int));
        assert(item_texts(ct.take(j + 1)).drop_last() =~= item_texts(ct.take(j as int)));
        assert(item_texts(ct.take(j + 1)).last() == ct[j as int].0);
        let words = split_tokens(text);
        let mut c = call_targets(id, words.as_slice(), lower_stems);
        calls.append(&mut c);
        match enclosing_definition(&defs, start) {
            Some(k) => {
                assert(dv[k as int] == defs@[k as int].deep_view());
                let nc = chars_of(defs[k].0.as_str());
                match function_named_in(id, nc.as_slice(), defs[k].1, funcs) {
                    Some(caller) => {
                        let mut f = function_call_edges(caller, id, words.as_slice(), funcs);
                        function_calls.append(&mut f);
                    },
                    None => {
                    },
                }
            },
            None => {
            },
        }
        assert(function_calls@ =~= function_refs(id, ct.take(j + 1), dv, fv));
        j = j + 1;
    }
    assert(it.take(i as int) =~= it);
    assert(ct.take(j as int) =~= ct);
    Ok(Some(FileReferences { imports, calls, function_calls }))
}

/// The stem of each file's path, empty when a path names no file.
pub open spec fn stem_rows(nodes: Seq<(i64, Seq<char>)>) -> Seq<(i64, Seq<char>)> {
    nodes.map_values(
        |n: (i64, Seq<char>)|
            (
                n.0,
                match file_stem_of(n.1) {
                    Some(st) => st,
                    None => seq![],
                },
            ),
    )
}

/// The lowercased stem of each file whose path names one, in order.
pub open spec fn lower_stem_rows(nodes: Seq<(i64, Seq<char>)>) -> Seq<(i64, Seq<char>)>
    decreases nodes.len(),
{
    if nodes.len() == 0 {
        seq![]
    } else {
        lower_stem_rows(nodes.drop_last()) + match file_stem_of(nodes.last().1) {
            Some(st) => seq![(nodes.last().0, unicode_lowercase(st))],
            None => seq![],
        }
    }
}

/// The stems of the files (see [`stem_rows`]); `nodes` pairs each id with
/// its path.
pub fn stem_table(nodes: &[(i64, String)]) -> (r: Vec<(i64, String)>)
    ensures
        named_views(r@) == stem_rows(named_views(nodes@)),
{
    let ghost nv = named_views(nodes@);
    let mut r: Vec<(i64, String)> = Vec::new();
    let mut i: usize = 0;
    while i < nodes.len()
        invariant
            i <= nodes@.len(),
            nv == named_views(nodes@),
            named_views(r@) == stem_rows(nv.take(i as int)),
        decreases nodes@.len() - i,
    {
        let ghost before = named_views(r@);
        assert(nv[i as int] == (nodes@[i as int].0, nodes@[i as int].1@));
        let st = match file_stem(nodes[i].1.as_str()) {
            Some(x) => x,
            None => String::new(),
        };
        assert(st@ == match file_stem_of(nv[i as int].1) {
            Some(x) => x,
            None => seq![],
        });
        r.push((nodes[i].0, st));
        assert(named_views(r@) =~= before.push((nodes@[i as int].0, st@)));
        i = i + 1;
        assert(named_views(r@) =~= stem_rows(nv.take(i as int)));
    }
    assert(nv.take(i as int) =~= nv);
    r
}

/// The lowercased stems of the files (see [`lower_stem_rows`]).
pub fn lower_stem_table(nodes: &[(i64, String)]) -> (r: Vec<(i64, String)>)
    ensures
        named_views(r@) == lower_stem_rows(named_views(nodes@)),
{
    let ghost nv = named_views(nodes@);
    let mut r: Vec<(i64, String)> = Vec::new();
    let mut i: usize = 0;
    while i < nodes.len()
        invariant
            i <= nodes@.len(),
            nv == named_views(nodes@),
            named_views(r@) == lower_stem_rows(nv.take(i as int)),
        decreases nodes@.len() - i,
    {
        assert(nv.take(i + 1).drop_last() =~= nv.take(i as int));
        let ghost before = named_views(r@);
        match file_stem(nodes[i].1.as_str()) {
            Some(x) => {
                let low = lowercase(x.as_str());
                r.push((nodes[i].0, low));
                assert(named_views(r@) =~= before.push((nodes@[i as int].0, low@)));
            },
            None => {
            },
        }
        i = i + 1;
        assert(named_views(r@) =~= lower_stem_rows(nv.take(i as int)));
    }
    assert(nv.take(i as int) =~= nv);
    r
}

/// The ids of the rows.
pub open spec fn known_ids(rows: Seq<(i64, Seq<char>)>) -> Seq<i64> {
    rows.map_values(|r: (i64, Seq<char>)| r.0)
}

/// Every reference is to another file among `known`.
pub open spec fn refs_ok(s: Seq<i64>, id: i64, known: Seq<i64>) -> bool {
    forall|i: int| 0 <= i < s.len() ==> #[trigger] s[i] != id && known.contains(s[i])
}

proof fn lemma_refs_ok_concat(a: Seq<i64>, b: Seq<i64>, id: i64, known: Seq<i64>)
    requires
        refs_ok(a, id, known),
        refs_ok(b, id, known),
    ensures
        refs_ok(a + b, id, known),
{
    assert forall|i: int| 0 <= i < (a + b).len() implies #[trigger] (a + b)[i] != id && known.contains(
        (a + b)[i],
    ) by {
        if i < a.len() {
            assert((a + b)[i] == a[i]);
        } else {
            assert((a + b)[i] == b[i - a.len()]);
        }
    }
}

proof fn lemma_import_ids_ok(id: i64, words: Seq<Seq<char>>, stems: Seq<(i64, Seq<char>)>, known: Seq<i64>)
    requires
        forall|k: int| 0 <= k < stems.len() ==> known.contains(#[trigger] stems[k].0),
    ensures
        refs_ok(import_ids(id, words, stems), id, known),
    decreases stems.len(),
{
    if stems.len() > 0 {
        let init = stems.drop_last();
        assert forall|k: int| 0 <= k < init.len() implies known.contains(#[trigger] init[k].0) by {
            assert(init[k] == stems[k]);
        }
        lemma_import_ids_ok(id, words, init, known);
        let (tid, stem) = stems.last();
        assert(known.contains(stems[stems.len() - 1].0));
        let tail: Seq<i64> = if stem.len() > 0 && tid != id && words.contains(stem) {
            seq![tid]
        } else {
            seq![]
        };
        assert(refs_ok(tail, id, known));
        lemma_refs_ok_concat(import_ids(id, words, init), tail, id, known);
    }
}

proof fn lemma_ids_named_ok(id: i64, w: Seq<char>, stems: Seq<(i64, Seq<char>)>, known: Seq<i64>)
    requires
        forall|k: int| 0 <= k < stems.len() ==> known.contains(#[trigger] stems[k].0),
    ensures
        refs_ok(ids_named(id, w, stems), id, known),
    decreases stems.len(),
{
    if stems.len() > 0 {
        let init = stems.drop_last();
        assert forall|k: int| 0 <= k < init.len() implies known.contains(#[trigger] init[k].0) by {
            assert(init[k] == stems[k]);
        }
        lemma_ids_named_ok(id, w, init, known);
        assert(known.contains(stems[stems.len() - 1].0));
        let tail: Seq<i64> = if stems.last().1 == w && stems.last().0 != id {
            seq![stems.last().0]
        } else {
            seq![]
        };
        assert(refs_ok(tail, id, known));
        lemma_refs_ok_concat(ids_named(id, w, init), tail, id, known);
    }
}

proof fn lemma_call_ids_ok(id: i64, words: Seq<Seq<char>>, stems: Seq<(i64, Seq<char>)>, known: Seq<i64>)
    requires
        forall|k: int| 0 <= k < stems.len() ==> known.contains(#[trigger] stems[k].0),
    ensures
        refs_ok(call_ids(id, words, stems), id, known),
    decreases words.len(),
{
    if words.len() > 0 {
        lemma_call_ids_ok(id, words.drop_last(), stems, known);
        lemma_ids_named_ok(id, unicode_lowercase(words.last()), stems, known);
        lemma_refs_ok_concat(
            call_ids(id, words.drop_last(), stems),
            ids_named(id, unicode_lowercase(words.last()), stems),
            id,
            known,
        );
    }
}

proof fn lemma_import_refs_ok(id: i64, texts: Seq<Seq<char>>, stems: Seq<(i64, Seq<char>)>, known: Seq<i64>)
    requires
        forall|k: int| 0 <= k < stems.len() ==> known.contains(#[trigger] stems[k].0),
    ensures
        refs_ok(import_refs(id, texts, stems), id, known),
    decreases texts.len(),
{
    if texts.len() > 0 {
        lemma_import_refs_ok(id, texts.drop_last(), stems, known);
        lemma_import_ids_ok(id, capture_words(texts.last()), stems, known);
        lemma_refs_ok_concat(
            import_refs(id, texts.drop_last(), stems),
            import_ids(id, capture_words(texts.last()), stems),
            id,
            known,
        );
    }
}

proof fn lemma_call_refs_ok(id: i64, texts: Seq<Seq<char>>, stems: Seq<(i64, Seq<char>)>, known: Seq<i64>)
    requires
        forall|k: int| 0 <= k < stems.len() ==> known.contains(#[trigger] stems[k].0),
    ensures
        refs_ok(call_refs(id, texts, stems), id, known),
    decreases texts.len(),
{
    if texts.len() > 0 {
        lemma_call_refs_ok(id, texts.drop_last(), stems, known);
        lemma_call_ids_ok(id, capture_words(texts.last()), stems, known);
        lemma_refs_ok_concat(
            call_refs(id, texts.drop_last(), stems),
            call_ids(id, capture_words(texts.last()), stems),
            id,
            known,
        );
    }
}

proof fn lemma_capture_punctuation(c: char)
    ensures
        capture_punctuation().contains(c) <==> (c == ':' || c == ';' || c == '{' || c == '}' || c == ',' || c == '.' || c == '/' || c == '\'' || c == '"' || c == '(' || c == ')' || c == '[' || c == ']'),
{
    let p = capture_punctuation();
    if p.contains(c) {
        let i = choose|i: int| 0 <= i < p.len() && p[i] == c;
        assert(i == 0 || i == 1 || i == 2 || i == 3 || i == 4 || i == 5 || i == 6 || i == 7 || i == 8 || i == 9 || i == 10 || i == 11 || i == 12 || i == 13);
    }
    if c == ':' || c == ';' || c == '{' || c == '}' || c == ',' || c == '.' || c == '/' || c == '\'' || c == '"' || c == '(' || c == ')' || c == '[' || c == ']' {
        if c == ':' {
            assert(p[0] == c);
        }
        if c == ';' {
            assert(p[2] == c);
        }
        if c == '{' {
            assert(p[3] == c);
        }
        if c == '}' {
            assert(p[4] == c);
        }
        if c == ',' {
            assert(p[5] == c);
        }
        if c == '.' {
            assert(p[6] == c);
        }
        if c == '/' {
            assert(p[7] == c);
        }
        if c == '\'' {
            assert(p[8] == c);
        }
        if c == '"' {
            assert(p[9] == c);
        }
        if c == '(' {
            assert(p[10] == c);
        }
        if c == ')' {
            assert(p[11] == c);
        }
        if c == '[' {
            assert(p[12] == c);
        }
        if c == ']' {
            assert(p[13] == c);
        }
    }
}

proof fn lemma_words_split_at(s: Seq<char>, cur: Seq<char>, c: char, t: Seq<char>)
    requires
        is_capture_separator(c),
    ensures
        words_from(s + seq![c] + t, cur) == words_from(s, cur) + words_from(t, seq![]),
    decreases s.len(),
{
    let u = s + seq![c] + t;
    let done: Seq<Seq<char>> = if cur.len() > 0 {
        seq![cur]
    } else {
        seq![]
    };
    if s.len() == 0 {
        assert(u.drop_first() =~= t);
        assert(u[0] == c);
        assert(done + words_from(t, seq![]) == words_from(s, cur) + words_from(t, seq![]));
    } else {
        assert(u.drop_first() =~= s.drop_first() + seq![c] + t);
        assert(u[0] == s[0]);
        if is_capture_separator(s[0]) {
            lemma_words_split_at(s.drop_first(), seq![], c, t);
            assert(done + (words_from(s.drop_first(), seq![]) + words_from(t, seq![])) =~= (done
                + words_from(s.drop_first(), seq![])) + words_from(t, seq![]));
        } else {
            lemma_words_split_at(s.drop_first(), cur.push(s[0]), c, t);
        }
    }
}

/// Captured text is split exactly at white space and at `:;{},./'"()[]`,
/// and such a character keeps the words on either side of it apart: the
/// words of `s`, the character and `t` are the words of `s` followed by the
/// words of `t`.
pub proof fn lemma_capture_separators_split(s: Seq<char>, c: char, t: Seq<char>)
    ensures
        is_capture_separator(c) <==> (is_ws(c) || c == ':' || c == ';' || c == '{' || c == '}' || c == ',' || c == '.' || c == '/' || c == '\'' || c == '"' || c == '(' || c == ')' || c == '[' || c == ']'),
        is_capture_separator(c) ==> capture_words(s + seq![c] + t) == capture_words(s)
            + capture_words(t),
{
    lemma_capture_punctuation(c);
    if is_capture_separator(c) {
        lemma_words_split_at(s, seq![], c, t);
    }
}

/// A file's references point only at other files of the project: no file
/// depends on itself, and every import or call names a file among the
/// given stems.
pub proof fn lemma_references_point_elsewhere(
    id: i64,
    texts: Seq<Seq<char>>,
    stems: Seq<(i64, Seq<char>)>,
    lower_stems: Seq<(i64, Seq<char>)>,
    t: i64,
)
    ensures
        import_refs(id, texts, stems).contains(t) ==> t != id && known_ids(stems).contains(t),
        call_refs(id, texts, lower_stems).contains(t) ==> t != id && known_ids(lower_stems).contains(t),
{
    let ks = known_ids(stems);
    let kl = known_ids(lower_stems);
    assert forall|k: int| 0 <= k < stems.len() implies ks.contains(#[trigger] stems[k].0) by {
        assert(ks[k] == stems[k].0);
    }
    assert forall|k: int| 0 <= k < lower_stems.len() implies kl.contains(#[trigger] lower_stems[k].0) by {
        assert(kl[k] == lower_stems[k].0);
    }
    lemma_import_refs_ok(id, texts, stems, ks);
    lemma_call_refs_ok(id, texts, lower_stems, kl);
    let a = import_refs(id, texts, stems);
    let c = call_refs(id, texts, lower_stems);
    if a.contains(t) {
        let i = choose|i: int| 0 <= i < a.len() && a[i] == t;
        assert(a[i] != id && ks.contains(a[i]));
    }
    if c.contains(t) {
        let i = choose|i: int| 0 <= i < c.len() && c[i] == t;
        assert(c[i] != id && kl.contains(c[i]));
    }
}

/// An edge leaves a function of file `id` and reaches a listed function,
/// marked `intra` exactly when that function is in file `id`.
pub open spec fn edge_ok(e: FunctionEdge, id: i64, funcs: Seq<FunctionView>) -> bool {
    &&& exists|k: int| 0 <= k < funcs.len() && funcs[k].0 == e.source && funcs[k].2 == Some(id)
    &&& exists|k: int|
        0 <= k < funcs.len() && funcs[k].0 == e.target && e.intra == (funcs[k].2 == Some(id))
}

/// Every edge of a sequence satisfies [`edge_ok`].
pub open spec fn edges_ok(es: Seq<FunctionEdge>, id: i64, funcs: Seq<FunctionView>) -> bool {
    forall|i: int| 0 <= i < es.len() ==> edge_ok(#[trigger] es[i], id, funcs)
}

proof fn lemma_edges_ok_concat(
    a: Seq<FunctionEdge>,
    b: Seq<FunctionEdge>,
    id: i64,
    funcs: Seq<FunctionView>,
)
    requires
        edges_ok(a, id, funcs),
        edges_ok(b, id, funcs),
    ensures
        edges_ok(a + b, id, funcs),
{
    assert forall|i: int| 0 <= i < (a + b).len() implies edge_ok(#[trigger] (a + b)[i], id, funcs) by {
        if i < a.len() {
            assert((a + b)[i] == a[i]);
        } else {
            assert((a + b)[i] == b[i - a.len()]);
        }
    }
}

proof fn lemma_word_edges_ok(
    caller: i64,
    id: i64,
    w: Seq<char>,
    funcs: Seq<FunctionView>,
    all: Seq<FunctionView>,
)
    requires
        exists|k: int| 0 <= k < all.len() && all[k].0 == caller && all[k].2 == Some(id),
        funcs.len() <= all.len(),
        forall|k: int| 0 <= k < funcs.len() ==> funcs[k] == all[k],
    ensures
        edges_ok(word_edges(caller, id, w, funcs), id, all),
    decreases funcs.len(),
{
    if funcs.len() > 0 {
        let init = funcs.drop_last();
        lemma_word_edges_ok(caller, id, w, init, all);
        let f = funcs.last();
        let k = funcs.len() - 1;
        assert(all[k] == f);
        let tail: Seq<FunctionEdge> = if f.1 == w {
            seq![FunctionEdge { source: caller, target: f.0, intra: f.2 == Some(id) }]
        } else {
            seq![]
        };
        if f.1 == w {
            assert(edge_ok(tail[0], id, all));
        }
        assert(edges_ok(tail, id, all));
        lemma_edges_ok_concat(word_edges(caller, id, w, init), tail, id, all);
    }
}

proof fn lemma_call_edges_ok(
    caller: i64,
    id: i64,
    words: Seq<Seq<char>>,
    funcs: Seq<FunctionView>,
)
    requires
        exists|k: int| 0 <= k < funcs.len() && funcs[k].0 == caller && funcs[k].2 == Some(id),
    ensures
        edges_ok(call_edges(caller, id, words, funcs), id, funcs),
    decreases words.len(),
{
    if words.len() > 0 {
        lemma_call_edges_ok(caller, id, words.drop_last(), funcs);
        lemma_word_edges_ok(caller, id, unicode_lowercase(words.last()), funcs, funcs);
        lemma_edges_ok_concat(
            call_edges(caller, id, words.drop_last(), funcs),
            word_edges(caller, id, unicode_lowercase(words.last()), funcs),
            id,
            funcs,
        );
    }
}

proof fn lemma_function_named_in_file(id: i64, name: Seq<char>, before: int, funcs: Seq<FunctionView>)
    ensures
        function_named(id, name, before, funcs) matches Some(c) ==> exists|k: int|
            0 <= k < funcs.len() && funcs[k].0 == c && funcs[k].2 == Some(id) && funcs[k].3 == name
                && funcs[k].4 == before + 1,
    decreases funcs.len(),
{
    if funcs.len() > 0 && !(funcs[0].2 == Some(id) && funcs[0].3 == name && funcs[0].4 == before + 1) {
        let rest = funcs.drop_first();
        lemma_function_named_in_file(id, name, before, rest);
        if let Some(c) = function_named(id, name, before, funcs) {
            let k = choose|k: int|
                0 <= k < rest.len() && rest[k].0 == c && rest[k].2 == Some(id) && rest[k].3 == name
                    && rest[k].4 == before + 1;
            assert(funcs[k + 1] == rest[k]);
        }
    }
}

proof fn lemma_function_refs_ok(
    id: i64,
    items: Seq<(Seq<char>, usize)>,
    defs: Seq<(Seq<char>, usize, usize, usize)>,
    funcs: Seq<FunctionView>,
)
    ensures
        edges_ok(function_refs(id, items, defs, funcs), id, funcs),
    decreases items.len(),
{
    if items.len() > 0 {
        lemma_function_refs_ok(id, items.drop_last(), defs, funcs);
        let item = items.last();
        let tail = call_site_edges(id, item, defs, funcs);
        if let Some(d) = enclosing(defs, item.1 as int) {
            lemma_function_named_in_file(id, d.0, d.1 as int, funcs);
            if let Some(c) = function_named(id, d.0, d.1 as int, funcs) {
                lemma_call_edges_ok(c, id, capture_words(item.0), funcs);
            }
        }
        assert(edges_ok(tail, id, funcs));
        lemma_edges_ok_concat(function_refs(id, items.drop_last(), defs, funcs), tail, id, funcs);
    }
}

/// Edge `e` leaves the indexed function of file `id` whose name, as written,
/// and start line are those of the definition that encloses one of the
/// captured calls.
pub open spec fn made_by_enclosing(
    e: FunctionEdge,
    id: i64,
    items: Seq<(Seq<char>, usize)>,
    defs: Seq<(Seq<char>, usize, usize, usize)>,
    funcs: Seq<FunctionView>,
) -> bool {
    exists|j: int, k: int|
        #![trigger items[j], funcs[k]]
        0 <= j < items.len() && 0 <= k < funcs.len() && funcs[k].0 == e.source && funcs[k].2 == Some(
            id,
        ) && (enclosing(defs, items[j].1 as int) matches Some(d) && funcs[k].3 == d.0 && funcs[k].4
            == d.1 + 1)
}

proof fn lemma_word_edges_source(caller: i64, id: i64, w: Seq<char>, funcs: Seq<FunctionView>)
    ensures
        forall|i: int|
            0 <= i < word_edges(caller, id, w, funcs).len() ==> (#[trigger] word_edges(
                caller,
                id,
                w,
                funcs,
            )[i]).source == caller,
    decreases funcs.len(),
{
    if funcs.len() > 0 {
        let init = funcs.drop_last();
        lemma_word_edges_source(caller, id, w, init);
        let head = word_edges(caller, id, w, init);
        let all = word_edges(caller, id, w, funcs);
        assert forall|i: int| 0 <= i < all.len() implies (#[trigger] all[i]).source == caller by {
            if i < head.len() {
                assert(all[i] == head[i]);
            }
        }
    }
}

proof fn lemma_call_edges_source(caller: i64, id: i64, words: Seq<Seq<char>>, funcs: Seq<FunctionView>)
    ensures
        forall|i: int|
            0 <= i < call_edges(caller, id, words, funcs).len() ==> (#[trigger] call_edges(
                caller,
                id,
                words,
                funcs,
            )[i]).source == caller,
    decreases words.len(),
{
    if words.len() > 0 {
        let w = unicode_lowercase(words.last());
        lemma_call_edges_source(caller, id, words.drop_last(), funcs);
        lemma_word_edges_source(caller, id, w, funcs);
        let head = call_edges(caller, id, words.drop_last(), funcs);
        let tail = word_edges(caller, id, w, funcs);
        let all = call_edges(caller, id, words, funcs);
        assert(all == head + tail);
        assert forall|i: int| 0 <= i < all.len() implies (#[trigger] all[i]).source == caller by {
            if i < head.len() {
                assert(all[i] == head[i]);
            } else {
                assert(all[i] == tail[i - head.len()]);
            }
        }
    }
}

proof fn lemma_function_refs_callers(
    id: i64,
    items: Seq<(Seq<char>, usize)>,
    defs: Seq<(Seq<char>, usize, usize, usize)>,
    funcs: Seq<FunctionView>,
)
    ensures
        forall|i: int|
            0 <= i < function_refs(id, items, defs, funcs).len() ==> made_by_enclosing(
                #[trigger] function_refs(id, items, defs, funcs)[i],
                id,
                items,
                defs,
                funcs,
            ),
    decreases items.len(),
{
    if items.len() > 0 {
        let init = items.drop_last();
        lemma_function_refs_callers(id, init, defs, funcs);
        let item = items.last();
        let j = items.len() - 1;
        let head = function_refs(id, init, defs, funcs);
        let tail = call_site_edges(id, item, defs, funcs);
        let all = function_refs(id, items, defs, funcs);
        assert(all == head + tail);
        assert forall|i: int| 0 <= i < all.len() implies made_by_enclosing(
            #[trigger] all[i],
            id,
            items,
            defs,
            funcs,
        ) by {
            if i < head.len() {
                assert(all[i] == head[i]);
                assert(made_by_enclosing(head[i], id, init, defs, funcs));
                let (j0, k0) = choose|j0: int, k0: int|
                    #![trigger init[j0], funcs[k0]]
                    0 <= j0 < init.len() && 0 <= k0 < funcs.len() && funcs[k0].0 == head[i].source
                        && funcs[k0].2 == Some(id) && (enclosing(defs, init[j0].1 as int) matches Some(
                        d,
                    ) && funcs[k0].3 == d.0 && funcs[k0].4 == d.1 + 1);
                assert(init[j0] == items[j0]);
            } else {
                assert(all[i] == tail[i - head.len()]);
                let d = enclosing(defs, item.1 as int)->0;
                lemma_function_named_in_file(id, d.0, d.1 as int, funcs);
                let c = function_named(id, d.0, d.1 as int, funcs)->0;
                lemma_call_edges_source(c, id, capture_words(item.0), funcs);
                assert(tail[i - head.len()].source == c);
                let k = choose|k: int|
                    0 <= k < funcs.len() && funcs[k].0 == c && funcs[k].2 == Some(id) && funcs[k].3
                        == d.0 && funcs[k].4 == d.1 + 1;
                assert(items[j] == item);
                assert(enclosing(defs, items[j].1 as int) == Some(d));
            }
        }
    }
}

/// Calls between functions go from the function that makes the call: every
/// edge a file gives leaves the indexed function of that file whose name and
/// start line are those of the definition enclosing one of its calls, and
/// reaches an indexed function, marked `intra` exactly when the called
/// function is in the same file.
pub proof fn lemma_function_edges_from_callers(
    id: i64,
    items: Seq<(Seq<char>, usize)>,
    defs: Seq<(Seq<char>, usize, usize, usize)>,
    funcs: Seq<FunctionView>,
    e: FunctionEdge,
)
    requires
        function_refs(id, items, defs, funcs).contains(e),
    ensures
        exists|k: int| 0 <= k < funcs.len() && funcs[k].0 == e.source && funcs[k].2 == Some(id),
        exists|k: int|
            0 <= k < funcs.len() && funcs[k].0 == e.target && e.intra == (funcs[k].2 == Some(id)),
        made_by_enclosing(e, id, items, defs, funcs),
{
    lemma_function_refs_ok(id, items, defs, funcs);
    lemma_function_refs_callers(id, items, defs, funcs);
    let es = function_refs(id, items, defs, funcs);
    let i = choose|i: int| 0 <= i < es.len() && es[i] == e;
    assert(edge_ok(es[i], id, funcs));
    assert(made_by_enclosing(es[i], id, items, defs, funcs));
}

} // verus!
