use proxyia::mcp::{
    classify, flag_enabled, fragment_of, normalize_tool_name, parse_tool, project_count_text,
    project_list_text, savings_report, token_saving, Request, SavingsTally, Tool,
};

#[test]
fn requests_by_method() {
    assert_eq!(classify("initialize", true), Request::Initialize);
    assert_eq!(classify("prompts/list", true), Request::ListPrompts);
    assert_eq!(classify("prompts/get", true), Request::GetPrompt);
    assert_eq!(classify("list_projects", false), Request::ListProjects);
    assert_eq!(classify("tools/list", true), Request::ListTools);
    assert_eq!(classify("tools/call", true), Request::CallTool);
    assert_eq!(classify("ping", true), Request::Acknowledge);
    assert_eq!(classify("notifications/initialized", false), Request::Ignore);
}

#[test]
fn tools_with_and_without_mandatory_prefix() {
    assert_eq!(normalize_tool_name("MANDATORY_index_project"), "index_project");
    assert_eq!(normalize_tool_name("search_context"), "search_context");
    assert_eq!(normalize_tool_name("MANDATORY_MANDATORY_x"), "MANDATORY_x");
    assert_eq!(parse_tool("MANDATORY_search_context"), Some(Tool::SearchContext));
    assert_eq!(parse_tool("search_context"), Some(Tool::SearchContext));
    assert_eq!(parse_tool("export_svg"), Some(Tool::ExportSvg));
    assert_eq!(parse_tool("get_token_savings_report"), Some(Tool::GetTokenSavingsReport));
    assert_eq!(parse_tool("list_projects"), Some(Tool::ListProjects));
    assert_eq!(parse_tool("MANDATORY_"), None);
    assert_eq!(parse_tool("delete_everything"), None);
}

#[test]
fn only_true_enables_a_flag() {
    assert!(flag_enabled(Some("true")));
    assert!(!flag_enabled(Some("false")));
    assert!(!flag_enabled(Some("TRUE")));
    assert!(!flag_enabled(Some("1")));
    assert!(!flag_enabled(None));
}

#[test]
fn token_counts() {
    let t = token_saving(4000, 400);
    assert_eq!((t.raw_tokens, t.sent_tokens, t.saved), (1000, 100, 900));
    let t = token_saving(10, 100);
    assert_eq!((t.raw_tokens, t.sent_tokens, t.saved), (2, 25, 0));
}

#[test]
fn savings_report_shows_last_twenty_lines() {
    let log: String = (1..=25).map(|i| format!("l{}\n", i)).collect();
    let r = savings_report(&log);
    let mut expected = String::from("📊 REPORTE DE AHORRO DE TOKENS\nTotal registros: 25\n\nÚLTIMOS 20:\n");
    for i in 6..=25 {
        expected.push_str(&format!("l{}\n", i));
    }
    assert_eq!(r, expected);
    assert_eq!(
        savings_report("a\r\nb"),
        "📊 REPORTE DE AHORRO DE TOKENS\nTotal registros: 2\n\nÚLTIMOS 20:\na\nb\n"
    );
}

#[test]
fn project_listing() {
    let ps = vec![("app".to_string(), "/w/app".to_string()), ("lib".to_string(), "/w/lib".to_string())];
    assert_eq!(
        project_list_text(&ps),
        "📂 Proyectos indexados (2):\n  - app (/w/app)\n  - lib (/w/lib)\n"
    );
    assert_eq!(
        project_list_text(&[]),
        "📂 Proyectos indexados (0):\n  (No hay proyectos indexados)\n"
    );
    assert_eq!(project_count_text(12), "📂 Proyectos indexados (12)");
}

#[test]
fn savings_tally_counts_summaries_five_times() {
    let mut t = SavingsTally::new();
    t.add_summary(10);
    t.add_text(100, 20);
    assert_eq!((t.raw_chars, t.sent_chars), (150, 30));
}

#[test]
fn fragment_is_first_twenty_lines() {
    let content: String = (1..=30).map(|i| format!("line{}\n", i)).collect();
    let expected: Vec<String> = (1..=20).map(|i| format!("line{}", i)).collect();
    assert_eq!(fragment_of(&content), expected.join("\n"));
    assert_eq!(fragment_of("a\r\nb\n"), "a\nb");
    assert_eq!(fragment_of(""), "");
}
