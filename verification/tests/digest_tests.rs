use proxyia::digest::{content_hash, needs_refresh, to_hex};

#[test]
fn content_hash_is_lowercase_sha256_hex() {
    assert_eq!(
        content_hash("abc"),
        "ba7816bf8f01cfea414140de5dae2223b00361a396177a9cb410ff61f20015ad"
    );
    assert_eq!(
        content_hash(""),
        "e3b0c44298fc1c149afbf4c8996fb92427ae41e4649b934ca495991b7852b855"
    );
    assert_eq!(content_hash("hello world").len(), 64);
}

#[test]
fn hex_digits() {
    assert_eq!(to_hex(&[0x00, 0x0f, 0xa5, 0xff]).iter().collect::<String>(), "000fa5ff");
}

#[test]
fn refresh_only_when_hash_changes() {
    let h = content_hash("fn main() {}");
    assert!(!needs_refresh(Some(&h), &h));
    assert!(needs_refresh(None, &h));
    assert!(needs_refresh(Some("0000"), &h));
    let h2 = content_hash("fn main() { }");
    assert!(needs_refresh(Some(&h), &h2));
}
