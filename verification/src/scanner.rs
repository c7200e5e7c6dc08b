use crate::paths::{normalize_path, normalized};
use crate::digest::{content_hash, content_hash_of};
use crate::syntax::{run_query, syntax_matches, CaptureSpan, Grammar};
use crate::text::{
    ascii_lower, ascii_lower_char, ascii_lowercase, chars_eq,
    chars_of, ends_with, first_non_ws, has_prefix, has_suffix, leading_ws, lines, lines_from, push_all,
    slice_chars, split_lines, starts_with, string_of, trim, trim_chars, trim_end, trim_start, utf8_len,
    utf8_len_capped, is_ws,
};
use vstd::prelude::*;
use vstd::utf8::{decode_utf8, encode_utf8, is_char_boundary, valid_utf8};

verus! {

/// Normalises a path the way the scanner stores it (see [`normalized`]).
pub fn norm(p: &str) -> (r: String)
    ensures
        r@ == normalized(p@),
{
    normalize_path(p)
}

/// Whether a trimmed line opens a doc comment or a heading.
pub open spec fn is_doc_line(t: Seq<char>) -> bool {
    ||| starts_with(t, seq!['/', '/', '/'])
    ||| starts_with(t, seq!['/', '*', '*'])
    ||| starts_with(t, seq!['#', ' '])
}

/// Whether a trimmed line looks like the head of a definition.
pub open spec fn looks_like_signature(t: Seq<char>) -> bool {
    ||| ends_with(t, seq!['{'])
    ||| ends_with(t, seq![':'])
    ||| starts_with(t, seq!['p', 'u', 'b', ' '])
    ||| starts_with(t, seq!['f', 'n', ' '])
    ||| starts_with(t, seq!['c', 'l', 'a', 's', 's', ' '])
    ||| starts_with(t, seq!['d', 'e', 'f', ' '])
    ||| starts_with(t, seq!['i', 'n', 't', 'e', 'r', 'f', 'a', 'c', 'e', ' '])
}

/// Whether a trimmed line is an import.
pub open spec fn looks_like_import(t: Seq<char>) -> bool {
    starts_with(t, seq!['u', 's', 'e']) || starts_with(t, seq!['i', 'm', 'p', 'o', 'r', 't'])
}

/// What one source line contributes to the skeleton: doc lines, definition
/// heads indented by at most four bytes (with an elided body) and top-level
/// imports are kept; everything else is dropped.
pub open spec fn skeleton_line(line: Seq<char>) -> Seq<char> {
    let t = trim(line);
    let indent = utf8_len(leading_ws(line));
    if t.len() == 0 {
        seq![]
    } else if is_doc_line(t) {
        line + seq!['\n']
    } else if indent <= 4 && looks_like_signature(t) {
        line + if ends_with(t, seq!['{']) {
            seq![' ', '.', '.', '.', ' ', '}', '\n']
        } else if ends_with(t, seq![':']) {
            seq![' ', '.', '.', '.', '\n']
        } else {
            seq!['\n']
        }
    } else if indent == 0 && looks_like_import(t) {
        line + seq!['\n']
    } else {
        seq![]
    }
}

/// The skeleton of a sequence of lines, line by line.
pub open spec fn skeleton_of(ls: Seq<Seq<char>>) -> Seq<char>
    decreases ls.len(),
{
    if ls.len() == 0 {
        seq![]
    } else {
        skeleton_of(ls.drop_last()) + skeleton_line(ls.last())
    }
}

/// The structural skeleton of a source text.
pub open spec fn skeleton(content: Seq<char>) -> Seq<char> {
    skeleton_of(lines(content))
}

/// Reduces source files to their structure: signatures, doc comments and imports.
pub struct UniversalDistiller {}

fn skeleton_line_exec(line: &[char]) -> (r: Vec<char>)
    ensures
        r@ == skeleton_line(line@),
{
    let t = trim_chars(line);
    let k = first_non_ws(line);
    let lead = slice_chars(line, 0, k);
    assert(lead@ == leading_ws(line@));
    let indent = utf8_len_capped(lead.as_slice(), 5);
    let ts = t.as_slice();
    let mut r: Vec<char> = Vec::new();
    if t.len() == 0 {
        return r;
    }
    if has_prefix(ts, &['/', '/', '/']) || has_prefix(ts, &['/', '*', '*']) || has_prefix(
        ts,
        &['#', ' '],
    ) {
        push_all(&mut r, line);
        r.push('\n');
        assert(r@ =~= line@ + seq!['\n']);
        return r;
    }
    let brace: &[char] = &['{'];
    let colon_lit: &[char] = &[':'];
    assert(brace@ =~= seq!['{']);
    assert(colon_lit@ =~= seq![':']);
    let opens = has_suffix(ts, brace);
    let colon = has_suffix(ts, colon_lit);
    let p1 = has_prefix(ts, &['p', 'u', 'b', ' ']);
    let p2 = has_prefix(ts, &['f', 'n', ' ']);
    let p3 = has_prefix(ts, &['c', 'l', 'a', 's', 's', ' ']);
    let p4 = has_prefix(ts, &['d', 'e', 'f', ' ']);
    let p5 = has_prefix(ts, &['i', 'n', 't', 'e', 'r', 'f', 'a', 'c', 'e', ' ']);
    let sig = opens || colon || p1 || p2 || p3 || p4 || p5;
    assert(indent <= 4 <==> utf8_len(leading_ws(line@)) <= 4);
    assert(indent == 0 <==> utf8_len(leading_ws(line@)) == 0);
    assert(sig == looks_like_signature(t@));
    if indent <= 4 && sig {
        push_all(&mut r, line);
        if opens {
            push_all(&mut r, &[' ', '.', '.', '.', ' ', '}', '\n']);
            assert(r@ =~= line@ + seq![' ', '.', '.', '.', ' ', '}', '\n']);
        } else if colon {
            push_all(&mut r, &[' ', '.', '.', '.', '\n']);
            assert(r@ =~= line@ + seq![' ', '.', '.', '.', '\n']);
        } else {
            r.push('\n');
            assert(r@ =~= line@ + seq!['\n']);
        }
        return r;
    }
    if indent == 0 && (has_prefix(ts, &['u', 's', 'e']) || has_prefix(
        ts,
        &['i', 'm', 'p', 'o', 'r', 't'],
    )) {
        push_all(&mut r, line);
        r.push('\n');
        assert(r@ =~= line@ + seq!['\n']);
    }
    r
}

impl UniversalDistiller {
    /// A distiller; it keeps no state.
    pub fn new() -> (d: Self) {
        UniversalDistiller {  }
    }

    /// The structural skeleton of a source text (see [`skeleton`]).
    pub fn skeletonize(&self, content: &str) -> (s: String)
        ensures
            s@ == skeleton(content@),
    {
        let cs = chars_of(content);
        let ls = split_lines(cs.as_slice());
        let ghost dv = ls.deep_view();
        let mut out: Vec<char> = Vec::new();
        let mut i: usize = 0;
        while i < ls.len()
            invariant
                i <= ls@.len(),
                dv == ls.deep_view(),
                dv == lines(content@),
                out@ == skeleton_of(dv.take(i as int)),
            decreases ls@.len() - i,
        {
            let piece = skeleton_line_exec(ls[i].as_slice());
            assert(dv[i as int] == ls@[i as int]@) by {
                assert(ls@[i as int].deep_view() =~= ls@[i as int]@);
            }
            push_all(&mut out, piece.as_slice());
            i = i + 1;
            assert(dv.take(i as int).drop_last() =~= dv.take((i - 1) as int));
        }
        assert(dv.take(i as int) =~= dv);
        string_of(out.as_slice())
    }
}


/// The language that a lowercase file extension stands for.
pub open spec fn language_of_extension(e: Seq<char>) -> Seq<char> {
    if e == seq!['r', 's'] {
        "rust"@
    } else if e == seq!['p', 'y'] {
        "python"@
    } else if e == seq!['p', 'h', 'p'] {
        "php"@
    } else if e == seq!['g', 'o'] {
        "go"@
    } else if e == seq!['j', 's'] {
        "javascript"@
    } else if e == seq!['j', 's', 'x'] {
        "javascript"@
    } else if e == seq!['t', 's'] {
        "typescript"@
    } else if e == seq!['t', 's', 'x'] {
        "typescript"@
    } else if e == seq!['j', 'a', 'v', 'a'] {
        "java"@
    } else if e == seq!['c', 'p', 'p'] {
        "cpp"@
    } else if e == seq!['c', 'c'] {
        "cpp"@
    } else if e == seq!['c', 'x', 'x'] {
        "cpp"@
    } else if e == seq!['h', 'p', 'p'] {
        "cpp"@
    } else if e == seq!['h'] {
        "cpp"@
    } else if e == seq!['c', 's'] {
        "csharp"@
    } else if e == seq!['r', 'b'] {
        "ruby"@
    } else if e == seq!['j', 's', 'o', 'n'] {
        "json"@
    } else if e == seq!['m', 'd'] {
        "markdown"@
    } else if e == seq!['s', 'q', 'l'] {
        "sql"@
    } else if e == seq!['y', 'm', 'l'] {
        "yaml"@
    } else if e == seq!['y', 'a', 'm', 'l'] {
        "yaml"@
    } else {
        "unknown"@
    }
}

/// The language that a lowercase file extension stands for.
pub fn language_of_ext(e: &[char]) -> (r: String)
    ensures
        r@ == language_of_extension(e@),
{
    let h: &[char] = &['h'];
    assert(h@ =~= seq!['h']);
    if chars_eq(e, &['r', 's']) {
        return "rust".to_owned();
    }
    if chars_eq(e, &['p', 'y']) {
        return "python".to_owned();
    }
    if chars_eq(e, &['p', 'h', 'p']) {
        return "php".to_owned();
    }
    if chars_eq(e, &['g', 'o']) {
        return "go".to_owned();
    }
    if chars_eq(e, &['j', 's']) {
        return "javascript".to_owned();
    }
    if chars_eq(e, &['j', 's', 'x']) {
        return "javascript".to_owned();
    }
    if chars_eq(e, &['t', 's']) {
        return "typescript".to_owned();
    }
    if chars_eq(e, &['t', 's', 'x']) {
        return "typescript".to_owned();
    }
    if chars_eq(e, &['j', 'a', 'v', 'a']) {
        return "java".to_owned();
    }
    if chars_eq(e, &['c', 'p', 'p']) {
        return "cpp".to_owned();
    }
    if chars_eq(e, &['c', 'c']) {
        return "cpp".to_owned();
    }
    if chars_eq(e, &['c', 'x', 'x']) {
        return "cpp".to_owned();
    }
    if chars_eq(e, &['h', 'p', 'p']) {
        return "cpp".to_owned();
    }
    if chars_eq(e, h) {
        return "cpp".to_owned();
    }
    if chars_eq(e, &['c', 's']) {
        return "csharp".to_owned();
    }
    if chars_eq(e, &['r', 'b']) {
        return "ruby".to_owned();
    }
    if chars_eq(e, &['j', 's', 'o', 'n']) {
        return "json".to_owned();
    }
    if chars_eq(e, &['m', 'd']) {
        return "markdown".to_owned();
    }
    if chars_eq(e, &['s', 'q', 'l']) {
        return "sql".to_owned();
    }
    if chars_eq(e, &['y', 'm', 'l']) {
        return "yaml".to_owned();
    }
    if chars_eq(e, &['y', 'a', 'm', 'l']) {
        return "yaml".to_owned();
    }
    "unknown".to_owned()
}

/// Index of the last `'.'` of `s`, or `-1`.
pub open spec fn last_dot(s: Seq<char>) -> int
    decreases s.len(),
{
    if s.len() == 0 {
        -1
    } else if s.last() == '.' {
        s.len() - 1
    } else {
        last_dot(s.drop_last())
    }
}

/// The extension of a file name, as `Path::extension` finds it: the text after
/// the last dot, unless the name has no dot, only a leading one, or is `..`.
pub open spec fn extension(name: Seq<char>) -> Option<Seq<char>> {
    if name == seq!['.', '.'] || last_dot(name) <= 0 {
        None
    } else {
        Some(name.skip(last_dot(name) + 1))
    }
}

/// The language of a file, from its name: `blade` for `.blade.php` files,
/// otherwise from the lowercase extension; `None` without an extension.
pub open spec fn detected_language(name: Seq<char>) -> Option<Seq<char>> {
    if ends_with(ascii_lower(name), seq!['.', 'b', 'l', 'a', 'd', 'e', '.', 'p', 'h', 'p']) {
        Some("blade"@)
    } else {
        match extension(name) {
            None => None,
            Some(e) => Some(language_of_extension(ascii_lower(e))),
        }
    }
}

fn find_last_dot(s: &[char]) -> (d: Option<usize>)
    ensures
        match d {
            None => last_dot(s@) == -1,
            Some(i) => last_dot(s@) == i as int && i < s@.len(),
        },
{
    let mut k: usize = s.len();
    assert(s@.take(k as int) =~= s@);
    while k > 0
        invariant
            k <= s@.len(),
            last_dot(s@) == last_dot(s@.take(k as int)),
        decreases k,
    {
        assert(s@.take(k as int).drop_last() =~= s@.take(k - 1));
        if s[k - 1] == '.' {
            return Some(k - 1);
        }
        k = k - 1;
    }
    None
}

/// The language of a file, from its name (see [`detected_language`]).
pub fn detect_language(file_name: &str) -> (r: Option<String>)
    ensures
        match r {
            None => detected_language(file_name@) is None,
            Some(l) => detected_language(file_name@) == Some(l@),
        },
{
    let name = chars_of(file_name);
    let lower = ascii_lowercase(name.as_slice());
    if has_suffix(lower.as_slice(), &['.', 'b', 'l', 'a', 'd', 'e', '.', 'p', 'h', 'p']) {
        return Some("blade".to_owned());
    }
    if chars_eq(name.as_slice(), &['.', '.']) {
        return None;
    }
    proof {
        assert(name@.take(name@.len() as int) =~= name@);
    }
    match find_last_dot(name.as_slice()) {
        None => None,
        Some(d) => {
            assert(name@.len() == name.len());
            if d == 0 {
                None
            } else {
                let e = slice_chars(name.as_slice(), d + 1, name.len());
                assert(e@ =~= name@.skip(d + 1));
                let el = ascii_lowercase(e.as_slice());
                Some(language_of_ext(el.as_slice()))
            }
        },
    }
}


/// How one language is analysed: the grammar it is parsed with, a query
/// that captures its imports and one that captures its calls.
pub struct LangConfig {
    pub grammar: Grammar,
    pub import_query: &'static str,
    pub call_query: Option<&'static str>,
}

/// The grammar and the import and call queries of a language, for the
/// languages that are analysed.
pub open spec fn lang_config_spec(lang: Seq<char>) -> Option<(Grammar, Seq<char>, Seq<char>)> {
    if lang == seq!['r', 'u', 's', 't'] {
        Some((Grammar::Rust, "(use_declaration) @import (mod_item) @mod"@, "(call_expression) @call"@))
    } else if lang == seq!['p', 'h', 'p'] {
        Some((Grammar::Php, "(namespace_definition) @ns (use_declaration) @use"@, "(function_call_expression) @call (method_call_expression) @method_call"@))
    } else if lang == seq!['j', 'a', 'v', 'a', 's', 'c', 'r', 'i', 'p', 't'] || lang == seq!['t', 'y', 'p', 'e', 's', 'c', 'r', 'i', 'p', 't'] {
        Some((Grammar::JavaScript, "(import_statement) @import (require_function) @require"@, "(call_expression) @call"@))
    } else if lang == seq!['p', 'y', 't', 'h', 'o', 'n'] {
        Some((Grammar::Python, "(import_statement) @import (import_from_statement) @import_from"@, "(call) @call"@))
    } else if lang == seq!['g', 'o'] {
        Some((Grammar::Go, "(import_declaration) @import"@, "(call_expression) @call"@))
    } else if lang == seq!['j', 'a', 'v', 'a'] {
        Some((Grammar::Java, "(import_declaration) @import"@, "(method_invocation) @call"@))
    } else if lang == seq!['c', 'p', 'p'] || lang == seq!['c'] {
        Some((Grammar::Cpp, "(preproc_include) @include (using_declaration) @using (namespace_definition) @ns"@, "(call_expression) @call"@))
    } else if lang == seq!['c', 's', 'h', 'a', 'r', 'p'] {
        Some((Grammar::CSharp, "(using_directive) @using"@, "(invocation_expression) @call"@))
    } else if lang == seq!['r', 'u', 'b', 'y'] {
        Some((Grammar::Ruby, "(require) @require"@, "(call) @call"@))
    } else {
        None
    }
}

/// The analysis set-up of a language (see [`lang_config_spec`]).
pub fn get_lang_config(lang: &str) -> (r: Option<LangConfig>)
    ensures
        match r {
            None => lang_config_spec(lang@) is None,
            Some(q) => q.call_query matches Some(c) && lang_config_spec(lang@) == Some(
                (q.grammar, q.import_query@, c@),
            ),
        },
{
    let cs = chars_of(lang);
    let c: &[char] = &['c'];
    assert(c@ =~= seq!['c']);
    if chars_eq(cs.as_slice(), &['r', 'u', 's', 't']) {
        return Some(LangConfig { grammar: Grammar::Rust, import_query: "(use_declaration) @import (mod_item) @mod", call_query: Some("(call_expression) @call") });
    }
    if chars_eq(cs.as_slice(), &['p', 'h', 'p']) {
        return Some(LangConfig { grammar: Grammar::Php, import_query: "(namespace_definition) @ns (use_declaration) @use", call_query: Some("(function_call_expression) @call (method_call_expression) @method_call") });
    }
    if chars_eq(cs.as_slice(), &['j', 'a', 'v', 'a', 's', 'c', 'r', 'i', 'p', 't']) || chars_eq(cs.as_slice(), &['t', 'y', 'p', 'e', 's', 'c', 'r', 'i', 'p', 't']) {
        return Some(LangConfig { grammar: Grammar::JavaScript, import_query: "(import_statement) @import (require_function) @require", call_query: Some("(call_expression) @call") });
    }
    if chars_eq(cs.as_slice(), &['p', 'y', 't', 'h', 'o', 'n']) {
        return Some(LangConfig { grammar: Grammar::Python, import_query: "(import_statement) @import (import_from_statement) @import_from", call_query: Some("(call) @call") });
    }
    if chars_eq(cs.as_slice(), &['g', 'o']) {
        return Some(LangConfig { grammar: Grammar::Go, import_query: "(import_declaration) @import", call_query: Some("(call_expression) @call") });
    }
    if chars_eq(cs.as_slice(), &['j', 'a', 'v', 'a']) {
        return Some(LangConfig { grammar: Grammar::Java, import_query: "(import_declaration) @import", call_query: Some("(method_invocation) @call") });
    }
    if chars_eq(cs.as_slice(), &['c', 'p', 'p']) || chars_eq(cs.as_slice(), c) {
        return Some(LangConfig { grammar: Grammar::Cpp, import_query: "(preproc_include) @include (using_declaration) @using (namespace_definition) @ns", call_query: Some("(call_expression) @call") });
    }
    if chars_eq(cs.as_slice(), &['c', 's', 'h', 'a', 'r', 'p']) {
        return Some(LangConfig { grammar: Grammar::CSharp, import_query: "(using_directive) @using", call_query: Some("(invocation_expression) @call") });
    }
    if chars_eq(cs.as_slice(), &['r', 'u', 'b', 'y']) {
        return Some(LangConfig { grammar: Grammar::Ruby, import_query: "(require) @require", call_query: Some("(call) @call") });
    }
    None
}

/// The query that captures function definitions and their names, per language.
pub open spec fn function_query_spec(lang: Seq<char>) -> Option<Seq<char>> {
    if lang == seq!['r', 'u', 's', 't'] {
        Some("(function_item name: (identifier) @name) @func"@)
    } else if lang == seq!['p', 'y', 't', 'h', 'o', 'n'] {
        Some("(function_definition name: (identifier) @name) @func"@)
    } else if lang == seq!['g', 'o'] {
        Some("(function_declaration name: (identifier) @name) @func"@)
    } else if lang == seq!['j', 'a', 'v', 'a'] {
        Some("(method_declaration name: (identifier) @name) @func"@)
    } else if lang == seq!['c', 'p', 'p'] || lang == seq!['c'] {
        Some("(function_definition declarator: (function_declarator declarator: (identifier) @name)) @func"@)
    } else if lang == seq!['c', 's', 'h', 'a', 'r', 'p'] {
        Some("(method_declaration name: (identifier) @name) @func"@)
    } else if lang == seq!['r', 'u', 'b', 'y'] {
        Some("(method name: (identifier) @name) @func"@)
    } else if lang == seq!['p', 'h', 'p'] {
        Some("(function_definition name: (name) @name) @func (method_declaration name: (name) @name) @method"@)
    } else if lang == seq!['j', 'a', 'v', 'a', 's', 'c', 'r', 'i', 'p', 't'] || lang == seq!['t', 'y', 'p', 'e', 's', 'c', 'r', 'i', 'p', 't'] {
        Some("(function_declaration name: (identifier) @name) @func"@)
    } else {
        None
    }
}

/// The query that captures function definitions (see [`function_query_spec`]).
pub fn function_query(lang: &str) -> (r: Option<&'static str>)
    ensures
        match r {
            None => function_query_spec(lang@) is None,
            Some(q) => function_query_spec(lang@) == Some(q@),
        },
{
    let cs = chars_of(lang);
    let c: &[char] = &['c'];
    assert(c@ =~= seq!['c']);
    if chars_eq(cs.as_slice(), &['r', 'u', 's', 't']) {
        return Some("(function_item name: (identifier) @name) @func");
    }
    if chars_eq(cs.as_slice(), &['p', 'y', 't', 'h', 'o', 'n']) {
        return Some("(function_definition name: (identifier) @name) @func");
    }
    if chars_eq(cs.as_slice(), &['g', 'o']) {
        return Some("(function_declaration name: (identifier) @name) @func");
    }
    if chars_eq(cs.as_slice(), &['j', 'a', 'v', 'a']) {
        return Some("(method_declaration name: (identifier) @name) @func");
    }
    if chars_eq(cs.as_slice(), &['c', 'p', 'p']) || chars_eq(cs.as_slice(), c) {
        return Some("(function_definition declarator: (function_declarator declarator: (identifier) @name)) @func");
    }
    if chars_eq(cs.as_slice(), &['c', 's', 'h', 'a', 'r', 'p']) {
        return Some("(method_declaration name: (identifier) @name) @func");
    }
    if chars_eq(cs.as_slice(), &['r', 'u', 'b', 'y']) {
        return Some("(method name: (identifier) @name) @func");
    }
    if chars_eq(cs.as_slice(), &['p', 'h', 'p']) {
        return Some("(function_definition name: (name) @name) @func (method_declaration name: (name) @name) @method");
    }
    if chars_eq(cs.as_slice(), &['j', 'a', 'v', 'a', 's', 'c', 'r', 'i', 'p', 't']) || chars_eq(cs.as_slice(), &['t', 'y', 'p', 'e', 's', 'c', 'r', 'i', 'p', 't']) {
        return Some("(function_declaration name: (identifier) @name) @func");
    }
    None
}

/// The characters of `content` that come before byte `offset`.
pub open spec fn chars_before(content: Seq<char>, offset: int) -> Seq<char> {
    decode_utf8(encode_utf8(content).take(offset))
}

fn prefix_chars(content: &str, offset: usize) -> (v: Vec<char>)
    requires
        offset <= encode_utf8(content@).len(),
        is_char_boundary(encode_utf8(content@), offset as int),
    ensures
        v@ == chars_before(content@, offset as int),
{
    broadcast use vstd::utf8::encode_utf8_decode_utf8;

    let (pre, _) = content.split_at(offset);
    proof {
        assert(encode_utf8(content@).take(offset as int) =~= encode_utf8(content@).subrange(
            0,
            offset as int,
        ));
        vstd::utf8::encode_utf8_decode_utf8(pre@);
    }
    chars_of(pre)
}

/// How many lines lie before byte `offset` of `content` (the line of a
/// definition that starts there is one more).
pub fn lines_before(content: &str, offset: usize) -> (n: usize)
    requires
        offset <= encode_utf8(content@).len(),
        is_char_boundary(encode_utf8(content@), offset as int),
    ensures
        n == lines(chars_before(content@, offset as int)).len(),
{
    let pre = prefix_chars(content, offset);
    let ls = split_lines(pre.as_slice());
    ls.len()
}

/// Whether a definition that starts at byte `offset` is public: the text of
/// its line before it, trimmed, is `pub` or begins with `pub `.
pub open spec fn public_before(content: Seq<char>, offset: int) -> bool {
    let ls = lines(chars_before(content, offset));
    ls.len() > 0 && ({
        let t = trim(ls.last());
        t == seq!['p', 'u', 'b'] || starts_with(t, seq!['p', 'u', 'b', ' '])
    })
}

/// Whether a definition that starts at byte `offset` is public
/// (see [`public_before`]).
pub fn is_public_at(content: &str, offset: usize) -> (b: bool)
    requires
        offset <= encode_utf8(content@).len(),
        is_char_boundary(encode_utf8(content@), offset as int),
    ensures
        b == public_before(content@, offset as int),
{
    let pre = prefix_chars(content, offset);
    let ls = split_lines(pre.as_slice());
    if ls.len() == 0 {
        return false;
    }
    let last = &ls[ls.len() - 1];
    assert(ls.deep_view().last() =~= last@);
    let t = trim_chars(last.as_slice());
    chars_eq(t.as_slice(), &['p', 'u', 'b']) || has_prefix(t.as_slice(), &['p', 'u', 'b', ' '])
}

proof fn lemma_trim_end_keeps(s: Seq<char>, j: int)
    requires
        0 <= j < s.len(),
        !is_ws(s[j]),
    ensures
        j < trim_end(s).len() <= s.len(),
        trim_end(s) == s.take(trim_end(s).len() as int),
    decreases s.len(),
{
    if is_ws(s.last()) {
        lemma_trim_end_keeps(s.drop_last(), j);
        let n = trim_end(s.drop_last()).len() as int;
        assert(s.drop_last().take(n) =~= s.take(n));
    } else {
        assert(s.take(s.len() as int) =~= s);
    }
}

/// Whether a definition is public depends only on the text of its line
/// before it once white space at both ends is dropped: two definitions whose
/// lines agree after trimming are public alike, however they are indented.
pub proof fn lemma_public_ignores_indent(c1: Seq<char>, o1: int, c2: Seq<char>, o2: int)
    requires
        lines(chars_before(c1, o1)).len() > 0,
        lines(chars_before(c2, o2)).len() > 0,
        trim(lines(chars_before(c1, o1)).last()) == trim(lines(chars_before(c2, o2)).last()),
    ensures
        public_before(c1, o1) == public_before(c2, o2),
{
}

/// A definition whose line, before it, is any white space followed by
/// `pub ` and text that ends in a character other than white space is
/// public (an indented `pub fn` is public).
pub proof fn lemma_indented_pub_is_public(content: Seq<char>, offset: int, w: Seq<char>, rest: Seq<char>)
    requires
        forall|i: int| 0 <= i < w.len() ==> is_ws(#[trigger] w[i]),
        lines(chars_before(content, offset)).len() > 0,
        lines(chars_before(content, offset)).last() == w + seq!['p', 'u', 'b', ' '] + rest,
    ensures
        public_before(content, offset),
{
    let p = seq!['p', 'u', 'b', ' '];
    let l = w + p + rest;
    let k = w.len() as int;
    assert forall|i: int| 0 <= i < k implies is_ws(#[trigger] l[i]) by {
        assert(l[i] == w[i]);
    }
    assert(l[k] == 'p');
    crate::text::lemma_trim_start_skip(l, k);
    let x = p + rest;
    assert(l.skip(k) =~= x);
    assert(x[2] == 'b');
    lemma_trim_end_keeps(x, 2);
    let t = trim_end(x);
    assert(trim(l) == t);
    if t.len() == 3 {
        assert(t =~= seq!['p', 'u', 'b']);
    } else {
        assert(t.take(4) =~= p);
    }
}

/// Top-level imports are kept: a line that starts with no white space and
/// whose text opens with `import` or `use`, and neither opens a block nor
/// ends with a colon, is kept as it is, on a line of its own.
pub proof fn lemma_top_level_imports_kept(l: Seq<char>)
    requires
        l.len() > 0,
        !is_ws(l[0]),
        starts_with(trim(l), seq!['i', 'm', 'p', 'o', 'r', 't']) || starts_with(
            trim(l),
            seq!['u', 's', 'e'],
        ),
        !ends_with(trim(l), seq!['{']),
        !ends_with(trim(l), seq![':']),
    ensures
        skeleton_line(l) == l + seq!['\n'],
{
    let t = trim(l);
    assert(trim_start(l) == l);
    assert(leading_ws(l) =~= Seq::<char>::empty());
    assert(utf8_len(Seq::<char>::empty()) == 0);
    assert(t.len() >= 3);
    assert(t[0] == t.take(3)[0]);
    assert(t[1] == t.take(3)[1]);
    assert(t[0] == 'i' || t[0] == 'u');
    assert(t[0] == 'i' ==> t[1] == 'm');
    assert(!is_doc_line(t));
    assert(!looks_like_signature(t));
    assert(looks_like_import(t));
}

/// The signature recorded for a function: the first line of its text,
/// trimmed (empty when the text has no line).
pub open spec fn signature_spec(text: Seq<char>) -> Seq<char> {
    if lines(text).len() == 0 {
        seq![]
    } else {
        trim(lines(text)[0])
    }
}

/// The signature recorded for a function (see [`signature_spec`]).
pub fn signature_of(text: &str) -> (sig: String)
    ensures
        sig@ == signature_spec(text@),
{
    let cs = chars_of(text);
    let ls = split_lines(cs.as_slice());
    if ls.len() == 0 {
        return String::new();
    }
    assert(ls.deep_view()[0] =~= ls@[0]@);
    let t = trim_chars(ls[0].as_slice());
    string_of(t.as_slice())
}

/// The directories the scanner does not enter.
pub open spec fn skipped_dir(name: Seq<char>) -> bool {
    ||| name == seq!['.', 'g', 'i', 't']
    ||| name == seq!['t', 'a', 'r', 'g', 'e', 't']
    ||| name == seq!['n', 'o', 'd', 'e', '_', 'm', 'o', 'd', 'u', 'l', 'e', 's']
    ||| name == seq!['b', 'a', 'c', 'k', 'u', 'p', 's']
    ||| name == seq!['v', 'e', 'n', 'd', 'o', 'r']
    ||| name == seq!['s', 't', 'o', 'r', 'a', 'g', 'e']
}

/// Whether the scanner enters a directory of this name.
pub fn should_descend(name: &str) -> (b: bool)
    ensures
        b == !skipped_dir(name@),
{
    let n = chars_of(name);
    let ns = n.as_slice();
    !(chars_eq(ns, &['.', 'g', 'i', 't']) || chars_eq(ns, &['t', 'a', 'r', 'g', 'e', 't'])
        || chars_eq(ns, &['n', 'o', 'd', 'e', '_', 'm', 'o', 'd', 'u', 'l', 'e', 's'])
        || chars_eq(ns, &['b', 'a', 'c', 'k', 'u', 'p', 's']) || chars_eq(
        ns,
        &['v', 'e', 'n', 'd', 'o', 'r'],
    ) || chars_eq(ns, &['s', 't', 'o', 'r', 'a', 'g', 'e']))
}

/// Whether a file in a detected language is read, hashed, summarised and
/// embedded: its language must be known and not `unknown`.
pub fn is_indexable(lang: Option<&str>) -> (b: bool)
    ensures
        b == (lang matches Some(l) && l@ != "unknown"@),
{
    match lang {
        None => false,
        Some(l) => {
            let cs = chars_of(l);
            let u = chars_of("unknown");
            !chars_eq(cs.as_slice(), u.as_slice())
        },
    }
}

/// The characters of bytes `[s, e)` of `content`.
pub open spec fn byte_span(content: Seq<char>, s: int, e: int) -> Seq<char> {
    decode_utf8(encode_utf8(content).subrange(s, e))
}

/// Bytes `[s, e)` of `content` lie inside it and begin and end on character
/// boundaries.
pub open spec fn valid_span(content: Seq<char>, s: int, e: int) -> bool {
    &&& 0 <= s <= e <= encode_utf8(content).len()
    &&& is_char_boundary(encode_utf8(content), s)
    &&& is_char_boundary(encode_utf8(content), e)
}

/// Whether bytes `[s, e)` of `content` can be taken as text.
pub fn span_ok(content: &str, s: usize, e: usize) -> (b: bool)
    ensures
        b == valid_span(content@, s as int, e as int),
{
    broadcast use vstd::utf8::encode_utf8_valid_utf8;

    s <= e && e <= content.as_bytes().len() && content.is_char_boundary(s) && content.is_char_boundary(e)
}

proof fn lemma_boundary_in_prefix(b: Seq<u8>, s: int, e: int)
    requires
        valid_utf8(b),
        0 <= s <= e <= b.len(),
        is_char_boundary(b, s),
        is_char_boundary(b, e),
    ensures
        valid_utf8(b.subrange(0, e)),
        is_char_boundary(b.subrange(0, e), s),
{
    broadcast use vstd::utf8::valid_utf8_split, vstd::utf8::is_char_boundary_start_end_of_seq;

    let p = b.subrange(0, e);
    assert(valid_utf8(p));
    if s < e {
        vstd::utf8::is_char_boundary_iff_not_is_continuation_byte(b, s);
        vstd::utf8::is_char_boundary_iff_not_is_continuation_byte(p, s);
    }
}

/// The text of bytes `[s, e)` of `content`.
pub fn span_text(content: &str, s: usize, e: usize) -> (t: String)
    requires
        valid_span(content@, s as int, e as int),
    ensures
        t@ == byte_span(content@, s as int, e as int),
{
    broadcast use vstd::utf8::encode_utf8_valid_utf8, vstd::utf8::encode_utf8_decode_utf8;

    proof {
        lemma_boundary_in_prefix(encode_utf8(content@), s as int, e as int);
    }
    let (pre, _) = content.split_at(e);
    let (_, mid) = pre.split_at(s);
    proof {
        assert(encode_utf8(mid@) =~= encode_utf8(content@).subrange(s as int, e as int));
    }
    mid.to_owned()
}

proof fn lemma_encode_len(cs: Seq<char>)
    ensures
        cs.len() <= encode_utf8(cs).len(),
    decreases cs.len(),
{
    if cs.len() > 0 {
        lemma_encode_len(cs.drop_first());
    }
}

proof fn lemma_lines_from_len(s: Seq<char>, cur: Seq<char>)
    ensures
        lines_from(s, cur).len() <= s.len() + if cur.len() > 0 {
            1int
        } else {
            0int
        },
    decreases s.len(),
{
    if s.len() > 0 {
        if s[0] == '\n' {
            lemma_lines_from_len(s.drop_first(), seq![]);
        } else {
            lemma_lines_from_len(s.drop_first(), cur.push(s[0]));
        }
    }
}

/// There are no more lines before a byte offset than the offset itself.
proof fn lemma_lines_before_bound(content: Seq<char>, offset: int)
    requires
        0 <= offset <= encode_utf8(content).len(),
        is_char_boundary(encode_utf8(content), offset),
    ensures
        lines(chars_before(content, offset)).len() <= offset,
{
    broadcast use vstd::utf8::encode_utf8_valid_utf8, vstd::utf8::valid_utf8_split, vstd::utf8::decode_utf8_encode_utf8;

    let b = encode_utf8(content);
    assert(b.take(offset) =~= b.subrange(0, offset));
    assert(valid_utf8(b.take(offset)));
    let x = chars_before(content, offset);
    lemma_encode_len(x);
    lemma_lines_from_len(x, seq![]);
}

/// The first capture of a match that is named `name`.
pub open spec fn name_capture(m: Seq<CaptureSpan>) -> Option<CaptureSpan>
    decreases m.len(),
{
    if m.len() == 0 {
        None
    } else if m[0].0 == "name"@ {
        Some(m[0])
    } else {
        name_capture(m.drop_first())
    }
}

/// A function found in a file, as plain values: its name, its signature, the
/// line it starts on, whether it is public, and the content hash of its name.
pub open spec fn site_of(content: Seq<char>, c: CaptureSpan) -> (Seq<char>, Seq<char>, int, bool, Seq<char>) {
    let text = byte_span(content, c.1 as int, c.2 as int);
    (
        text,
        signature_spec(text),
        lines(chars_before(content, c.1 as int)).len() + 1int,
        public_before(content, c.1 as int),
        content_hash_of(text),
    )
}

/// The functions the matches of a function query give: one per match that
/// has a `name` capture, in order.
pub open spec fn sites_of(ms: Seq<Seq<CaptureSpan>>, content: Seq<char>) -> Seq<
    (Seq<char>, Seq<char>, int, bool, Seq<char>),
>
    decreases ms.len(),
{
    if ms.len() == 0 {
        seq![]
    } else {
        sites_of(ms.drop_last(), content) + match name_capture(ms.last()) {
            Some(c) => seq![site_of(content, c)],
            None => seq![],
        }
    }
}

/// Every `name` capture of the matches is a span of the text.
pub open spec fn names_valid(ms: Seq<Seq<CaptureSpan>>, content: Seq<char>) -> bool {
    forall|i: int|
        0 <= i < ms.len() ==> (#[trigger] name_capture(ms[i]) matches Some(c) ==> valid_span(
            content,
            c.1 as int,
            c.2 as int,
        ))
}

/// A function definition found by the scanner.
pub struct FunctionSite {
    pub name: String,
    pub signature: String,
    pub start_line: usize,
    pub is_public: bool,
    pub name_hash: String,
}

/// A function site as plain values.
pub open spec fn site_view(f: FunctionSite) -> (Seq<char>, Seq<char>, int, bool, Seq<char>) {
    (f.name@, f.signature@, f.start_line as int, f.is_public, f.name_hash@)
}

pub(crate) fn name_capture_exec(m: &Vec<(String, usize, usize)>) -> (r: Option<(usize, usize)>)
    ensures
        match r {
            None => name_capture(m.deep_view()) is None,
            Some(p) => name_capture(m.deep_view()) matches Some(c) && c.1 == p.0 && c.2 == p.1,
        },
{
    let ghost mv = m.deep_view();
    let ghost key: Seq<char> = "name"@;
    proof {
        reveal_strlit("name");
    }
    assert(key =~= seq!['n', 'a', 'm', 'e']);
    let mut i: usize = 0;
    assert(mv.skip(0) =~= mv);
    while i < m.len()
        invariant
            i <= m@.len(),
            mv == m.deep_view(),
            key == "name"@,
            key =~= seq!['n', 'a', 'm', 'e'],
            name_capture(mv) == name_capture(mv.skip(i as int)),
        decreases m@.len() - i,
    {
        let ghost rest = mv.skip(i as int);
        assert(rest.drop_first() =~= mv.skip(i + 1));
        assert(rest[0] == mv[i as int]);
        let n = chars_of(m[i].0.as_str());
        assert(mv[i as int].0 == m@[i as int].0@);
        let name: [char; 4] = ['n', 'a', 'm', 'e'];
        assert(name@ =~= key);
        if chars_eq(n.as_slice(), &name) {
            assert(name_capture(rest) == Some(mv[i as int]));
            return Some((m[i].1, m[i].2));
        }
        assert(name_capture(rest) == name_capture(rest.drop_first()));
        i = i + 1;
    }
    None
}

/// The functions that the matches of a function query give (see
/// [`sites_of`]).
pub fn function_sites(matches: &Vec<Vec<(String, usize, usize)>>, content: &str) -> (r: Vec<
    FunctionSite,
>)
    requires
        names_valid(matches.deep_view(), content@),
        encode_utf8(content@).len() < usize::MAX,
    ensures
        r@.map_values(|f: FunctionSite| site_view(f)) == sites_of(matches.deep_view(), content@),
{
    let ghost mv = matches.deep_view();
    let mut r: Vec<FunctionSite> = Vec::new();
    let mut i: usize = 0;
    while i < matches.len()
        invariant
            i <= matches@.len(),
            mv == matches.deep_view(),
            names_valid(mv, content@),
            encode_utf8(content@).len() < usize::MAX,
            r@.map_values(|f: FunctionSite| site_view(f)) == sites_of(mv.take(i as int), content@),
        decreases matches@.len() - i,
    {
        assert(mv.take(i + 1).drop_last() =~= mv.take(i as int));
        assert(mv[i as int] == matches@[i as int].deep_view());
        let ghost before = r@.map_values(|f: FunctionSite| site_view(f));
        match name_capture_exec(&matches[i]) {
            Some((s, e)) => {
                assert(name_capture(mv[i as int]) is Some);
                let name = span_text(content, s, e);
                let signature = signature_of(name.as_str());
                proof {
                    lemma_lines_before_bound(content@, s as int);
                }
                let line = lines_before(content, s) + 1;
                let is_public = is_public_at(content, s);
                let name_hash = content_hash(name.as_str());
                r.push(FunctionSite { name, signature, start_line: line, is_public, name_hash });
                assert(r@.map_values(|f: FunctionSite| site_view(f)) =~= before.push(
                    site_of(content@, name_capture(mv[i as int])->0),
                ));
            },
            None => {
            },
        }
        i = i + 1;
        assert(r@.map_values(|f: FunctionSite| site_view(f)) =~= sites_of(
            mv.take(i as int),
            content@,
        ));
    }
    assert(mv.take(i as int) =~= mv);
    r
}

/// Whether every `name` capture of the matches is a span of the text (see
/// [`names_valid`]).
pub fn names_ok(matches: &Vec<Vec<(String, usize, usize)>>, content: &str) -> (b: bool)
    ensures
        b == names_valid(matches.deep_view(), content@),
{
    let ghost mv = matches.deep_view();
    let mut i: usize = 0;
    while i < matches.len()
        invariant
            i <= matches@.len(),
            mv == matches.deep_view(),
            forall|j: int|
                0 <= j < i ==> (#[trigger] name_capture(mv[j]) matches Some(c) ==> valid_span(
                    content@,
                    c.1 as int,
                    c.2 as int,
                )),
        decreases matches@.len() - i,
    {
        assert(mv[i as int] == matches@[i as int].deep_view());
        match name_capture_exec(&matches[i]) {
            Some((s, e)) => {
                if !span_ok(content, s, e) {
                    assert(name_capture(mv[i as int]) is Some);
                    return false;
                }
            },
            None => {
            },
        }
        i = i + 1;
    }
    true
}

/// The functions the scanner records for a file in language `lang`: `None`
/// when the language is not analysed, tree-sitter refuses the grammar, gives
/// no tree or cannot compile the query, or a `name` capture is not a span of
/// the text.
pub open spec fn functions_in(lang: Seq<char>, content: Seq<char>) -> Option<
    Seq<(Seq<char>, Seq<char>, int, bool, Seq<char>)>,
> {
    match (lang_config_spec(lang), function_query_spec(lang)) {
        (Some(cfg), Some(fq)) => match syntax_matches(cfg.0, fq, content) {
            Some(Some(ms)) => if names_valid(ms, content) {
                Some(sites_of(ms, content))
            } else {
                None
            },
            _ => None,
        },
        _ => None,
    }
}

/// Finds the function definitions of a file (see [`functions_in`]).
pub fn find_functions(lang: &str, content: &str) -> (r: Option<Vec<FunctionSite>>)
    requires
        encode_utf8(content@).len() < usize::MAX,
    ensures
        match r {
            None => functions_in(lang@, content@) is None,
            Some(v) => functions_in(lang@, content@) == Some(
                v@.map_values(|f: FunctionSite| site_view(f)),
            ),
        },
{
    let cfg = match get_lang_config(lang) {
        Some(c) => c,
        None => return None,
    };
    let fq = match function_query(lang) {
        Some(q) => q,
        None => return None,
    };
    let ms = match run_query(cfg.grammar, fq, content) {
        Some(Some(ms)) => ms,
        _ => return None,
    };
    if !names_ok(&ms, content) {
        return None;
    }
    Some(function_sites(&ms, content))
}

/// The language of the file a `/`-separated path names, as the scanner
/// detects it from the path.
pub open spec fn path_language_spec(path: Seq<char>) -> Option<Seq<char>> {
    match crate::paths::file_name_of(path) {
        Some(n) => detected_language(n),
        None => None,
    }
}

/// The language of the file a path names (see [`path_language_spec`]).
pub fn path_language(path: &str) -> (r: Option<String>)
    ensures
        r.deep_view() == path_language_spec(path@),
{
    match crate::paths::file_name(path) {
        Some(n) => detect_language(n.as_str()),
        None => None,
    }
}

proof fn lemma_last_dot_bound(s: Seq<char>)
    ensures
        -1 <= last_dot(s) < s.len(),
    decreases s.len(),
{
    if s.len() > 0 && s.last() != '.' {
        lemma_last_dot_bound(s.drop_last());
    }
}

proof fn lemma_lower_keeps_dots(s: Seq<char>)
    ensures
        last_dot(ascii_lower(s)) == last_dot(s),
    decreases s.len(),
{
    if s.len() > 0 {
        assert(ascii_lower(s).drop_last() =~= ascii_lower(s.drop_last()));
        assert(ascii_lower(s).last() == ascii_lower_char(s.last()));
        lemma_lower_keeps_dots(s.drop_last());
    }
}

proof fn lemma_lower_dotdot(s: Seq<char>)
    ensures
        (s == seq!['.', '.']) <==> (ascii_lower(s) == seq!['.', '.']),
{
    assert(ascii_lower(s).len() == s.len());
    if ascii_lower(s) == seq!['.', '.'] {
        assert(ascii_lower(s)[0] == ascii_lower_char(s[0]));
        assert(ascii_lower(s)[1] == ascii_lower_char(s[1]));
        assert(s =~= seq!['.', '.']);
    }
    if s == seq!['.', '.'] {
        assert(ascii_lower(s) =~= seq!['.', '.']);
    }
}

/// Language detection ignores the case of ASCII letters: two file names that
/// differ only there get the same language (`Main.JAVA` is `java`).
pub proof fn lemma_detect_case_insensitive(a: Seq<char>, b: Seq<char>)
    requires
        ascii_lower(a) == ascii_lower(b),
    ensures
        detected_language(a) == detected_language(b),
{
    lemma_lower_keeps_dots(a);
    lemma_lower_keeps_dots(b);
    lemma_lower_dotdot(a);
    lemma_lower_dotdot(b);
    lemma_last_dot_bound(a);
    let d = last_dot(a);
    assert(a.len() == b.len()) by {
        assert(ascii_lower(a).len() == a.len());
        assert(ascii_lower(b).len() == b.len());
    }
    if d > 0 && a != seq!['.', '.'] {
        assert(ascii_lower(a.skip(d + 1)) =~= ascii_lower(a).skip(d + 1));
        assert(ascii_lower(b.skip(d + 1)) =~= ascii_lower(b).skip(d + 1));
    }
}

/// What the scanner does with one directory entry.
pub struct EntryPlan {
    /// The node type recorded: `directory` or `file`.
    pub node_type: &'static str,
    /// Whether the file is read, hashed, summarised, embedded and searched
    /// for functions.
    pub read_content: bool,
    /// Whether the scan continues inside the directory.
    pub descend: bool,
}

/// Plans the scan of one directory entry from its name, whether it is a
/// directory and the language detected for it.
pub fn plan_entry(name: &str, is_dir: bool, lang: Option<&str>) -> (p: EntryPlan)
    ensures
        p.node_type@ == (if is_dir {
            "directory"@
        } else {
            "file"@
        }),
        p.read_content == (!is_dir && (lang matches Some(l) && l@ != "unknown"@)),
        p.descend == (is_dir && !skipped_dir(name@)),
{
    let read_content = !is_dir && is_indexable(lang);
    let descend = is_dir && should_descend(name);
    EntryPlan { node_type: if is_dir { "directory" } else { "file" }, read_content, descend }
}

/// The text embedded for a file: its content trimmed, when anything is
/// left.
pub open spec fn embedding_text_spec(content: Seq<char>) -> Option<Seq<char>> {
    if trim(content).len() == 0 {
        None
    } else {
        Some(trim(content))
    }
}

/// The text embedded for a file (see [`embedding_text_spec`]).
pub fn embedding_text(content: &str) -> (r: Option<String>)
    ensures
        r.deep_view() == embedding_text_spec(content@),
{
    let cs = chars_of(content);
    let t = trim_chars(cs.as_slice());
    if t.len() == 0 {
        None
    } else {
        Some(string_of(t.as_slice()))
    }
}

/// What asking the summarising service about a file gave.
pub enum SummaryOutcome {
    /// No service is configured.
    NoService,
    /// The service gave this summary.
    Summary(String),
    /// The service failed.
    Failed,
}

/// The summary stored for a file: the service's summary when it gave one,
/// otherwise the file's structural skeleton.
pub fn pick_summary(outcome: SummaryOutcome, content: &str) -> (s: String)
    ensures
        s@ == match outcome {
            SummaryOutcome::Summary(t) => t@,
            _ => skeleton(content@),
        },
{
    match outcome {
        SummaryOutcome::Summary(t) => t,
        _ => UniversalDistiller::new().skeletonize(content),
    }
}

} // verus!
