use proxyia::paths::{file_name, file_stem, name_stem, normalize_path};

#[test]
fn normalize_turns_backslashes_and_drops_long_path_marker() {
    assert_eq!(normalize_path("C:\\proj\\src\\main.rs"), "C:/proj/src/main.rs");
    assert_eq!(normalize_path("\\\\?\\C:\\proj"), "C:/proj");
    assert_eq!(normalize_path("//?///?/x"), "x");
    assert_eq!(normalize_path("a/b"), "a/b");
    assert_eq!(normalize_path(""), "");
}

#[test]
fn normalize_is_idempotent_on_examples() {
    for p in ["\\\\?\\C:\\a\\b", "//?/x/y", "plain", "a\\\\b"] {
        let once = normalize_path(p);
        assert_eq!(normalize_path(&once), once);
    }
}

#[test]
fn file_names_like_std_path() {
    assert_eq!(file_name("src/db.rs").as_deref(), Some("db.rs"));
    assert_eq!(file_name("src/dir/").as_deref(), Some("dir"));
    assert_eq!(file_name("a/./").as_deref(), Some("a"));
    assert_eq!(file_name("a/b/.").as_deref(), Some("b"));
    assert_eq!(file_name("a/.."), None);
    assert_eq!(file_name("/"), None);
    assert_eq!(file_name(""), None);
    assert_eq!(file_name("."), None);
    for p in ["src/db.rs", "x/y/", "a/./", "a/..", "/", "", ".", "./q", "tail."] {
        let expected = std::path::Path::new(p)
            .file_name()
            .map(|n| n.to_string_lossy().to_string());
        assert_eq!(file_name(p), expected, "{}", p);
    }
}

#[test]
fn stems_like_std_path() {
    assert_eq!(name_stem("db.rs"), "db");
    assert_eq!(name_stem("archive.tar.gz"), "archive.tar");
    assert_eq!(name_stem(".bashrc"), ".bashrc");
    assert_eq!(name_stem("Makefile"), "Makefile");
    assert_eq!(name_stem("tail."), "tail");
    for p in ["src/db.rs", "a/archive.tar.gz", "home/.bashrc", "Makefile", "a/..", "x/tail."] {
        let expected = std::path::Path::new(p)
            .file_stem()
            .map(|n| n.to_string_lossy().to_string());
        assert_eq!(file_stem(p), expected, "{}", p);
    }
}
