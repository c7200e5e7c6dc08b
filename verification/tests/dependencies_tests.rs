use proxyia::dependencies::{
    call_targets, captured_items, enclosing_definition, file_references, function_call_edges,
    function_named_in, import_targets, lower_stem_table, lowercase, spans_ok, split_tokens,
    stem_table, FunctionEdge, FunctionRef,
};
use proxyia::scanner::find_functions;

fn strings(v: &[&str]) -> Vec<String> {
    v.iter().map(|s| s.to_string()).collect()
}

fn func(id: i64, name: &str, file_node: Option<i64>, start_line: usize) -> FunctionRef {
    FunctionRef { id, name_lower: lowercase(name), file_node, name: name.to_string(), start_line }
}

fn indexed(file_node: i64, content: &str, first_id: i64) -> Vec<FunctionRef> {
    find_functions("rust", content)
        .unwrap()
        .iter()
        .enumerate()
        .map(|(i, site)| func(first_id + i as i64, &site.name, Some(file_node), site.start_line))
        .collect()
}

#[test]
fn tokens_split_on_whitespace_and_punctuation() {
    assert_eq!(
        split_tokens("use crate::db::{Pool, Row};"),
        strings(&["use", "crate", "db", "Pool", "Row"])
    );
    assert_eq!(split_tokens("require './lib/helper'"), strings(&["require", "lib", "helper"]));
    assert!(split_tokens(" ;; ").is_empty());
}

#[test]
fn imports_name_other_files_by_stem() {
    let stems = vec![(1i64, "db".to_string()), (2, "main".to_string()), (3, String::new())];
    let words = strings(&["use", "crate", "db", "main"]);
    assert_eq!(import_targets(2, &words, &stems), vec![1]);
    assert_eq!(import_targets(9, &words, &stems), vec![1, 2]);
}

#[test]
fn calls_name_files_by_lowercased_stem() {
    let lower = vec![(1i64, "db".to_string()), (4, "db".to_string()), (2, "main".to_string())];
    let words = strings(&["DB", "connect", "Main"]);
    assert_eq!(call_targets(2, &words, &lower), vec![1, 4]);
    assert_eq!(call_targets(7, &words, &lower), vec![1, 4, 2]);
    assert_eq!(lowercase("ÀbC"), "àbc");
}

#[test]
fn function_edges_leave_the_calling_function() {
    let funcs = vec![
        func(10, "connect", Some(1), 4),
        func(11, "Connect", Some(2), 9),
        func(12, "run", None, 2),
    ];
    let words = strings(&["db", "Connect"]);
    let edges = function_call_edges(30, 2, &words, &funcs);
    assert_eq!(
        edges,
        vec![
            FunctionEdge { source: 30, target: 10, intra: false },
            FunctionEdge { source: 30, target: 11, intra: true },
        ]
    );
}

#[test]
fn callers_are_found_by_enclosing_definition() {
    let defs = vec![
        ("outer".to_string(), 0usize, 0usize, 50usize),
        ("inner".to_string(), 1usize, 10usize, 20usize),
    ];
    assert_eq!(enclosing_definition(&defs, 15), Some(1));
    assert_eq!(enclosing_definition(&defs, 30), Some(0));
    assert_eq!(enclosing_definition(&defs, 50), None);
    let funcs = vec![func(5, "outer", Some(2), 1), func(6, "outer", Some(1), 1), func(7, "outer", Some(1), 3)];
    let outer: Vec<char> = "outer".chars().collect();
    assert_eq!(function_named_in(1, &outer, 0, &funcs), Some(6));
    assert_eq!(function_named_in(1, &outer, 2, &funcs), Some(7));
    assert_eq!(function_named_in(1, &outer, 1, &funcs), None);
    assert_eq!(function_named_in(3, &outer, 0, &funcs), None);
    let upper: Vec<char> = "Outer".chars().collect();
    assert_eq!(function_named_in(1, &upper, 0, &funcs), None);
}

#[test]
fn stem_tables() {
    let nodes = vec![
        (1i64, "src/DB.rs".to_string()),
        (2, "src/".to_string()),
        (3, "a/..".to_string()),
    ];
    assert_eq!(
        stem_table(&nodes),
        vec![(1, "DB".to_string()), (2, "src".to_string()), (3, String::new())]
    );
    assert_eq!(
        lower_stem_table(&nodes),
        vec![(1, "db".to_string()), (2, "src".to_string())]
    );
}

#[test]
fn capture_texts_follow_matches() {
    let content = "let a = f(x);";
    let ms = vec![
        vec![("call".to_string(), 8usize, 12usize)],
        vec![("call".to_string(), 4usize, 5usize), ("x".to_string(), 10usize, 11usize)],
    ];
    assert!(spans_ok(&ms, content));
    assert_eq!(
        captured_items(&ms, content),
        vec![("f(x)".to_string(), 8), ("a".to_string(), 4), ("x".to_string(), 10)]
    );
    let bad = vec![vec![("call".to_string(), 8usize, 99usize)]];
    assert!(!spans_ok(&bad, content));
}

#[test]
fn references_of_a_rust_file() {
    let nodes = vec![(1i64, "src/db.rs".to_string()), (2, "src/main.rs".to_string())];
    let stems = stem_table(&nodes);
    let lower = lower_stem_table(&nodes);
    let funcs = vec![func(10, "connect", Some(1), 2), func(20, "main", Some(2), 3)];
    let content = "use crate::db;\nfn main() { db::connect(); }\n";
    let refs = file_references(2, "src/main.rs", content, &stems, &lower, &funcs).unwrap().unwrap();
    assert_eq!(refs.imports, vec![1]);
    assert_eq!(refs.calls, vec![1]);
    assert_eq!(refs.function_calls, vec![FunctionEdge { source: 20, target: 10, intra: false }]);
}

#[test]
fn call_inside_a_function_links_caller_to_callee() {
    let nodes = vec![(1i64, "src/lib.rs".to_string())];
    let stems = stem_table(&nodes);
    let lower = lower_stem_table(&nodes);
    let funcs = vec![func(100, "f", Some(1), 2), func(200, "g", Some(1), 3)];
    let content = "fn f() { g(); }\nfn g() {}\n";
    let refs = file_references(1, "src/lib.rs", content, &stems, &lower, &funcs).unwrap().unwrap();
    assert_eq!(refs.function_calls, vec![FunctionEdge { source: 100, target: 200, intra: true }]);
    let recursive = "fn g() { g(); }\n";
    let funcs = vec![func(200, "g", Some(1), 2)];
    let refs = file_references(1, "src/lib.rs", recursive, &stems, &lower, &funcs).unwrap().unwrap();
    assert_eq!(refs.function_calls, vec![FunctionEdge { source: 200, target: 200, intra: true }]);
    let top_level = "static X: u8 = g();\n";
    let refs = file_references(1, "src/lib.rs", top_level, &stems, &lower, &funcs).unwrap().unwrap();
    assert!(refs.function_calls.is_empty());
}

#[test]
fn no_references_for_unanalysed_files() {
    let nodes = vec![(1i64, "README.md".to_string())];
    let stems = stem_table(&nodes);
    let lower = lower_stem_table(&nodes);
    assert!(file_references(1, "README.md", "# db", &stems, &lower, &[]).unwrap().is_none());
    assert!(file_references(1, "Makefile", "db", &stems, &lower, &[]).unwrap().is_none());
}

#[test]
fn callers_differing_only_in_case_stay_apart() {
    let nodes = vec![(7i64, "src/parser.rs".to_string())];
    let stems = stem_table(&nodes);
    let lower = lower_stem_table(&nodes);
    let content = "fn Parse() { helper(); }\nfn parse() { tokenize(); }\nfn helper() {}\nfn tokenize() {}\n";
    let funcs = indexed(7, content, 1);
    assert_eq!(
        funcs.iter().map(|f| (f.id, f.name.clone(), f.start_line)).collect::<Vec<_>>(),
        vec![
            (1, "Parse".to_string(), 2),
            (2, "parse".to_string(), 3),
            (3, "helper".to_string(), 4),
            (4, "tokenize".to_string(), 5),
        ]
    );
    let refs = file_references(7, "src/parser.rs", content, &stems, &lower, &funcs).unwrap().unwrap();
    assert_eq!(
        refs.function_calls,
        vec![
            FunctionEdge { source: 1, target: 3, intra: true },
            FunctionEdge { source: 2, target: 4, intra: true },
        ]
    );
}

#[test]
fn callers_with_one_name_are_told_apart_by_line() {
    let nodes = vec![(3i64, "src/two.rs".to_string())];
    let stems = stem_table(&nodes);
    let lower = lower_stem_table(&nodes);
    let content = "mod a { fn run() { x(); } }\nmod b { fn run() { y(); } }\nfn x() {}\nfn y() {}\n";
    let funcs = indexed(3, content, 10);
    let refs = file_references(3, "src/two.rs", content, &stems, &lower, &funcs).unwrap().unwrap();
    assert_eq!(
        refs.function_calls,
        vec![
            FunctionEdge { source: 10, target: 12, intra: true },
            FunctionEdge { source: 11, target: 13, intra: true },
        ]
    );
}
