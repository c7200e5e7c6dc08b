use proxyia::watcher::{norm, path_depth, should_rescan, triggers_rescan, ChangeKind};

#[test]
fn watcher_paths() {
    assert_eq!(norm("C:\\p\\src\\a.rs"), "C:/p/src/a.rs");
    assert_eq!(path_depth("/p", "/p/a.rs"), Some(1));
    assert_eq!(path_depth("/p", "/p/src/a.rs"), Some(2));
    assert_eq!(path_depth("/p/", "/p/src/a.rs"), Some(2));
    assert_eq!(path_depth("/p", "/p"), Some(0));
    assert_eq!(path_depth("C:/p", "C:/p/src/deep/a.rs"), Some(3));
    assert_eq!(path_depth("/p", "/p2/a.rs"), None);
    assert_eq!(path_depth("/p", "/q/a.rs"), None);
}

#[test]
fn rescan_decisions() {
    assert!(should_rescan(true, Some("rust")));
    assert!(!should_rescan(true, Some("unknown")));
    assert!(!should_rescan(true, None));
    assert!(!should_rescan(false, Some("rust")));
    assert!(triggers_rescan(ChangeKind::Modify, true));
    assert!(triggers_rescan(ChangeKind::Create, true));
    assert!(!triggers_rescan(ChangeKind::Other, true));
    assert!(!triggers_rescan(ChangeKind::Modify, false));
}
