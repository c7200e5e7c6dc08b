use proxyia::scanner::{
    detect_language, find_functions, function_query, get_lang_config, is_indexable, is_public_at,
    lines_before, names_ok, path_language, plan_entry, should_descend, signature_of, span_ok,
    span_text, UniversalDistiller, embedding_text, pick_summary, SummaryOutcome,
};
use proxyia::syntax::Grammar;

#[test]
fn test_detect_language() {
    let test_cases = vec![
        ("main.rs", Some("rust")),
        ("app.py", Some("python")),
        ("server.go", Some("go")),
        ("Main.java", Some("java")),
        ("index.js", Some("javascript")),
        ("component.tsx", Some("typescript")),
        ("Program.cs", Some("csharp")),
        ("model.rb", Some("ruby")),
        ("helper.cpp", Some("cpp")),
        ("module.h", Some("cpp")),
        ("README.md", Some("markdown")),
        ("config.json", Some("json")),
        ("unknown.xyz", Some("unknown")),
    ];
    for (filename, expected) in test_cases {
        let got = detect_language(filename);
        assert_eq!(got.as_deref(), expected, "Fallo para '{}'", filename);
    }
}

#[test]
fn detect_language_other_extensions() {
    assert_eq!(detect_language("a.jsx").as_deref(), Some("javascript"));
    assert_eq!(detect_language("a.ts").as_deref(), Some("typescript"));
    assert_eq!(detect_language("a.cxx").as_deref(), Some("cpp"));
    assert_eq!(detect_language("a.hpp").as_deref(), Some("cpp"));
    assert_eq!(detect_language("a.cc").as_deref(), Some("cpp"));
    assert_eq!(detect_language("schema.sql").as_deref(), Some("sql"));
    assert_eq!(detect_language("ci.yml").as_deref(), Some("yaml"));
    assert_eq!(detect_language("ci.yaml").as_deref(), Some("yaml"));
    assert_eq!(detect_language("index.php").as_deref(), Some("php"));
    assert_eq!(detect_language("view.blade.php").as_deref(), Some("blade"));
    assert_eq!(detect_language("VIEW.BLADE.PHP").as_deref(), Some("blade"));
    assert_eq!(detect_language("MAIN.RS").as_deref(), Some("rust"));
}

#[test]
fn detect_language_without_extension() {
    assert_eq!(detect_language("Makefile"), None);
    assert_eq!(detect_language(".bashrc"), None);
    assert_eq!(detect_language(".."), None);
    assert_eq!(detect_language("archive.").as_deref(), Some("unknown"));
}

#[test]
fn path_language_uses_the_file_name() {
    assert_eq!(path_language("src/db.rs").as_deref(), Some("rust"));
    assert_eq!(path_language("/project/app/Main.Java").as_deref(), Some("java"));
    assert_eq!(path_language("src/"), None);
    assert_eq!(path_language("notes/README"), None);
}

#[test]
fn skeleton_keeps_signatures_imports_and_docs() {
    let d = UniversalDistiller::new();
    let src = "use std::fs;\n\n/// Reads.\npub fn read() -> u8 {\n    let x = 1;\n    x\n}\nclass A:\n        deep = 1\n";
    let s = d.skeletonize(src);
    assert_eq!(
        s,
        "use std::fs;\n/// Reads.\npub fn read() -> u8 { ... }\nclass A: ...\n"
    );
}

#[test]
fn skeleton_of_empty_text_is_empty() {
    let d = UniversalDistiller::new();
    assert_eq!(d.skeletonize(""), "");
    assert_eq!(d.skeletonize("   \n\n"), "");
}

#[test]
fn lang_config_per_language() {
    let c = get_lang_config("rust").unwrap();
    assert_eq!(c.grammar, Grammar::Rust);
    assert_eq!(c.import_query, "(use_declaration) @import (mod_item) @mod");
    assert_eq!(c.call_query, Some("(call_expression) @call"));
    assert_eq!(get_lang_config("typescript").unwrap().grammar, Grammar::JavaScript);
    assert_eq!(get_lang_config("c").unwrap().grammar, Grammar::Cpp);
    assert_eq!(get_lang_config("ruby").unwrap().import_query, "(require) @require");
    assert!(get_lang_config("markdown").is_none());
    assert!(get_lang_config("blade").is_none());
}

#[test]
fn function_query_per_language() {
    assert_eq!(
        function_query("python"),
        Some("(function_definition name: (identifier) @name) @func")
    );
    assert_eq!(function_query("ruby"), Some("(method name: (identifier) @name) @func"));
    assert_eq!(function_query("json"), None);
}

#[test]
fn lines_and_publicity_before_an_offset() {
    let src = "pub fn alpha() {}\nfn beta() {}\n";
    assert_eq!(lines_before(src, 0), 0);
    assert_eq!(lines_before(src, 7), 1);
    assert_eq!(lines_before(src, 21), 2);
    assert!(is_public_at(src, 7));
    assert!(!is_public_at(src, 21));
    assert!(!is_public_at(src, 0));
}

#[test]
fn signature_is_first_trimmed_line() {
    assert_eq!(signature_of("  fn run(&self)\n{\n}"), "fn run(&self)");
    assert_eq!(signature_of(""), "");
}

#[test]
fn spans_of_text() {
    let s = "añb";
    assert!(span_ok(s, 0, 1));
    assert!(!span_ok(s, 0, 2));
    assert!(span_ok(s, 1, 3));
    assert!(!span_ok(s, 2, 1));
    assert!(!span_ok(s, 0, 9));
    assert_eq!(span_text(s, 1, 3), "ñ");
    let good = vec![vec![("name".to_string(), 0usize, 1usize)]];
    let bad = vec![vec![("name".to_string(), 0usize, 2usize)]];
    let other = vec![vec![("func".to_string(), 0usize, 2usize)]];
    assert!(names_ok(&good, s));
    assert!(!names_ok(&bad, s));
    assert!(names_ok(&other, s));
}

#[test]
fn finds_rust_functions_with_tree_sitter() {
    let src = "pub fn alpha() {}\nfn beta(x: i32) -> i32 { x }\n";
    let sites = find_functions("rust", src).unwrap();
    assert_eq!(sites.len(), 2);
    assert_eq!(sites[0].name, "alpha");
    assert_eq!(sites[0].signature, "alpha");
    assert_eq!(sites[0].start_line, 2);
    assert!(sites[0].is_public);
    assert_eq!(
        sites[0].name_hash,
        "8ed3f6ad685b959ead7022518e1af76cd816f8e8ec7ccdda1ed4018e8f2223f8"
    );
    assert_eq!(sites[1].name, "beta");
    assert_eq!(sites[1].start_line, 3);
    assert!(!sites[1].is_public);
}

#[test]
fn finds_python_functions() {
    let src = "def one():\n    pass\n\ndef two(a):\n    return a\n";
    let sites = find_functions("python", src).unwrap();
    let names: Vec<&str> = sites.iter().map(|s| s.name.as_str()).collect();
    assert_eq!(names, vec!["one", "two"]);
}

#[test]
fn no_functions_for_unanalysed_languages() {
    assert!(find_functions("markdown", "# title").is_none());
    assert!(find_functions("unknown", "fn x() {}").is_none());
}

#[test]
fn entry_plans() {
    let p = plan_entry("src", true, None);
    assert_eq!(p.node_type, "directory");
    assert!(!p.read_content);
    assert!(p.descend);
    let p = plan_entry("target", true, None);
    assert!(!p.descend);
    let p = plan_entry("main.rs", false, Some("rust"));
    assert_eq!(p.node_type, "file");
    assert!(p.read_content);
    assert!(!p.descend);
    let p = plan_entry("x.xyz", false, Some("unknown"));
    assert!(!p.read_content);
}

#[test]
fn skipped_directories() {
    for d in [".git", "target", "node_modules", "backups", "vendor", "storage"] {
        assert!(!should_descend(d), "{}", d);
    }
    assert!(should_descend("src"));
    assert!(should_descend(".github"));
    assert!(is_indexable(Some("rust")));
    assert!(!is_indexable(Some("unknown")));
    assert!(!is_indexable(None));
}

#[test]
fn embedding_text_is_trimmed_content() {
    assert_eq!(embedding_text("  fn a() {}\n"), Some("fn a() {}".to_string()));
    assert_eq!(embedding_text(" \n\t "), None);
    assert_eq!(embedding_text(""), None);
}

#[test]
fn summary_falls_back_to_skeleton() {
    let src = "pub fn a() {\n    1\n}\n";
    assert_eq!(pick_summary(SummaryOutcome::Summary("Resumen".to_string()), src), "Resumen");
    assert_eq!(pick_summary(SummaryOutcome::Failed, src), "pub fn a() { ... }\n");
    assert_eq!(pick_summary(SummaryOutcome::NoService, src), "pub fn a() { ... }\n");
}
