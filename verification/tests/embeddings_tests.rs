use proxyia::embeddings::{chat_user_content, MockEmbedder, OpenAIEmbedder};

#[test]
fn chat_url_derived_from_embeddings_url() {
    let e = OpenAIEmbedder::new(
        "k".to_string(),
        "http://host/v1/embeddings".to_string(),
        "emb".to_string(),
        "chat".to_string(),
        1536,
    );
    assert_eq!(e.chat_url, "http://host/v1/chat/completions");
    assert_eq!(e.vector_size(), 1536);
    let f = OpenAIEmbedder::new("k".into(), "http://host/embed".into(), "e".into(), "c".into(), 8);
    assert_eq!(f.chat_url, "http://host/embed");
}

#[test]
fn embed_input_limit_is_8000_bytes() {
    let e = OpenAIEmbedder::new("k".into(), "u".into(), "e".into(), "c".into(), 8);
    let long = "x".repeat(9000);
    assert_eq!(e.embed_input(&long).len(), 8000);
    assert_eq!(e.embed_input("short"), "short");
}

#[test]
fn chat_content_layout() {
    assert_eq!(
        chat_user_content("fn a() {}", "¿qué hace?"),
        "CONTEXTO DEL CODIGO:\nfn a() {}\n\nPREGUNTA: ¿qué hace?"
    );
}

#[test]
fn mock_embedder_size() {
    assert_eq!(MockEmbedder::new(16).vector_size(), 16);
}
