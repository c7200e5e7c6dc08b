use vstd::prelude::*;

verus! {

/// The tree-sitter grammars the scanner parses with.
#[derive(Clone, Copy, Debug, PartialEq, Eq, Structural)]
pub enum Grammar {
    Rust,
    Php,
    JavaScript,
    Python,
    Go,
    Java,
    Cpp,
    CSharp,
    Ruby,
}

/// A compiled tree-sitter grammar (opaque).
#[verifier::external_type_specification]
#[verifier::external_body]
pub struct ExLanguage(tree_sitter::Language);

/// One capture of a query match: the capture's name and the byte range of
/// the captured node.
pub type CaptureSpan = (Seq<char>, usize, usize);

/// What tree-sitter gives for a query run on a source text parsed with a
/// grammar: `None` when the parser refuses the grammar; `Some(None)` when
/// the parse gives no tree or the query does not compile; otherwise every
/// match in the order tree-sitter finds them, each with its captures.
/// It names the outcome of the whole sequence of calls that [`run_query`]
/// makes (setting the language, parsing, compiling the query, walking its
/// matches), not of one function: each of those depends only on the
/// grammar, the query and the source, so the sequence does too.
pub uninterp spec fn syntax_matches(grammar: Grammar, query: Seq<char>, source: Seq<char>) -> Option<
    Option<Seq<Seq<CaptureSpan>>>,
>;

/// The grammar of the matching `tree-sitter-*` crate, taken from its
/// `LANGUAGE` constant (for PHP, `LANGUAGE_PHP`). Trusted; nothing is stated
/// of the opaque value.
#[verifier::external_body]
fn grammar_language(g: Grammar) -> (l: tree_sitter::Language) {
    match g {
        Grammar::Rust => tree_sitter_rust::LANGUAGE.into(),
        Grammar::Php => tree_sitter_php::LANGUAGE_PHP.into(),
        Grammar::JavaScript => tree_sitter_javascript::LANGUAGE.into(),
        Grammar::Python => tree_sitter_python::LANGUAGE.into(),
        Grammar::Go => tree_sitter_go::LANGUAGE.into(),
        Grammar::Java => tree_sitter_java::LANGUAGE.into(),
        Grammar::Cpp => tree_sitter_cpp::LANGUAGE.into(),
        Grammar::CSharp => tree_sitter_c_sharp::LANGUAGE.into(),
        Grammar::Ruby => tree_sitter_ruby::LANGUAGE.into(),
    }
}

/// Parses `source` with the grammar (`Parser::set_language`, `Parser::parse`),
/// compiles `query` (`Query::new`) and collects what
/// `QueryCursor::matches` yields over the whole tree, each capture as its
/// name from `Query::capture_names` and its node's `start_byte` and
/// `end_byte`; `None` when `set_language` fails, `Some(None)` when there is
/// no tree or `Query::new` fails. Trusted: the result is [`syntax_matches`]
/// of the arguments; nothing is stated of the byte ranges themselves.
#[verifier::external_body]
pub(crate) fn run_query(grammar: Grammar, query: &str, source: &str) -> (r: Option<
    Option<Vec<Vec<(String, usize, usize)>>>,
>)
    ensures
        r.deep_view() == syntax_matches(grammar, query@, source@),
{
    let language = grammar_language(grammar);
    let mut parser = tree_sitter::Parser::new();
    parser.set_language(&language).ok()?;
    match (parser.parse(source, None), tree_sitter::Query::new(&language, query)) {
        (Some(tree), Ok(q)) => {
            let mut cursor = tree_sitter::QueryCursor::new();
            let found = cursor.matches(&q, tree.root_node(), source.as_bytes());
            Some(Some(found.map(|m| m.captures.iter().map(|c| (q.capture_names()[c.index as usize].to_string(), c.node.start_byte(), c.node.end_byte())).collect()).collect()))
        },
        _ => Some(None),
    }
}

} // verus!
