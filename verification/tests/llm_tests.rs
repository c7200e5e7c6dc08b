use proxyia::llm::{finish_summary, summary_prompt, LlmClient, SummaryError};

#[test]
fn client_needs_url_and_key() {
    let c = LlmClient::from_settings(Some("http://h".into()), Some("k".into()), None).unwrap();
    assert_eq!(c.api_url, "http://h");
    assert_eq!(c.api_key, "k");
    assert_eq!(c.model, "gpt-4o-mini");
    let c = LlmClient::from_settings(Some("http://h".into()), Some("k".into()), Some("m".into())).unwrap();
    assert_eq!(c.model, "m");
    assert!(LlmClient::from_settings(Some(String::new()), Some("k".into()), None).is_none());
    assert!(LlmClient::from_settings(Some("u".into()), Some(String::new()), None).is_none());
    assert!(LlmClient::from_settings(None, Some("k".into()), None).is_none());
    assert!(LlmClient::from_settings(Some("u".into()), None, None).is_none());
}

#[test]
fn prompt_for_a_short_file() {
    let p = summary_prompt("src/a.rs", "fn a() {}");
    assert_eq!(
        p,
        "Resume este archivo en 3-6 líneas:\n- Propósito principal\n- Principales funciones/clases/exports\n- Dependencias clave (qué importa o usa)\n\nARCHIVO: src/a.rs\n\nfn a() {}"
    );
}

#[test]
fn prompt_truncates_long_files() {
    let content = format!("a{}", "é".repeat(7000));
    let p = summary_prompt("x", &content);
    let head = &content[..11999];
    let expected = format!(
        "Resume este archivo en 3-6 líneas:\n- Propósito principal\n- Principales funciones/clases/exports\n- Dependencias clave (qué importa o usa)\n\nARCHIVO: x\n\n{}...\n[TRUNCADO: el original tiene {} caracteres]",
        head,
        content.len()
    );
    assert_eq!(p, expected);
}

#[test]
fn summaries_are_trimmed_and_not_empty() {
    assert_eq!(finish_summary("  Resumen.\n"), Ok("Resumen.".to_string()));
    assert_eq!(finish_summary(" \n\t "), Err(SummaryError::Empty));
    assert_eq!(finish_summary(""), Err(SummaryError::Empty));
}
