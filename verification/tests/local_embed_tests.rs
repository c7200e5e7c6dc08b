use proxyia::local_embed::{hash_str, tokenize, FeatureKind, HashEmbedder};
use std::collections::hash_map::DefaultHasher;
use std::hash::{Hash, Hasher};

fn std_hash(s: &str) -> u64 {
    let mut h = DefaultHasher::new();
    s.hash(&mut h);
    h.finish()
}

#[test]
fn hash_str_matches_hashing_a_str() {
    for s in ["", "a", "src/db.rs", "db__conn", "ñandú"] {
        assert_eq!(hash_str(s), std_hash(s));
    }
}

#[test]
fn tokens_are_lowercased_alphanumeric_words_of_two_bytes() {
    assert_eq!(
        tokenize("fn Process_Data(db: &Database) -> Result<()>"),
        vec!["fn", "process_data", "db", "database", "result"]
    );
    assert_eq!(tokenize("a b c"), Vec::<String>::new());
    assert_eq!(tokenize("Ü x"), vec!["ü"]);
}

#[test]
fn embedder_has_384_dimensions() {
    let e = HashEmbedder::new();
    assert_eq!(e.vector_size(), 384);
}

#[test]
fn embed_input_truncates_at_16000_bytes() {
    let e = HashEmbedder::new();
    let short = "abc";
    assert_eq!(e.embed_input(short), short);
    let long = "é".repeat(9000);
    let cut = e.embed_input(&long);
    assert_eq!(cut.len(), 16000);
    let odd = format!("a{}", "é".repeat(9000));
    assert_eq!(e.embed_input(&odd).len(), 15999);
}

#[test]
fn feature_plan_unigrams_bigrams_trigrams() {
    let e = HashEmbedder::new();
    let plan = e.feature_plan("db conn pool");
    assert_eq!(plan.len(), 3 + 2 + 1);
    let kinds: Vec<FeatureKind> = plan.iter().map(|f| f.kind).collect();
    assert_eq!(
        kinds,
        vec![
            FeatureKind::Unigram,
            FeatureKind::Unigram,
            FeatureKind::Unigram,
            FeatureKind::Bigram,
            FeatureKind::Bigram,
            FeatureKind::Trigram
        ]
    );
    let feats = ["db", "conn", "pool", "db__conn", "conn__pool", "db__conn__pool"];
    for (f, p) in feats.iter().zip(plan.iter()) {
        let h = std_hash(f);
        assert_eq!(p.bucket, (h % 384) as usize);
        assert_eq!(p.negative, (h >> 32) & 1 == 1);
        assert_eq!(p.byte_len, f.len());
    }
}

#[test]
fn feature_plan_is_deterministic() {
    let e = HashEmbedder::new();
    let t = "fn process_data(db: &Database) -> Result<()>";
    assert_eq!(e.feature_plan(t), e.feature_plan(t));
}

#[test]
fn test_deterministic_embeddings() {
    let embedder = HashEmbedder::new();
    let text = "fn process_data(db: &Database) -> Result<()>";
    let plan1 = embedder.feature_plan(text);
    let plan2 = embedder.feature_plan(text);
    for (a, b) in plan1.iter().zip(plan2.iter()) {
        assert!(a == b, "Los embeddings deben ser determinísticos");
    }
    assert_eq!(plan1.len(), plan2.len());
}
