use proxyia::exporter::{
    count_dep_degrees, edge_pairs, file_url, max_degree, node_label, node_name, position_of,
};

#[test]
fn degrees_count_both_ends() {
    let ids = vec![10i64, 20, 30];
    let deps = vec![(10i64, 20i64), (20, 30), (10, 99), (20, 20)];
    assert_eq!(count_dep_degrees(&ids, &deps), vec![2, 4, 1]);
    assert_eq!(max_degree(&[2, 4, 1]), 4);
    assert_eq!(max_degree(&[]), 1);
    assert_eq!(max_degree(&[0, 0]), 1);
}

#[test]
fn edges_need_both_ends() {
    let ids = vec![10i64, 20, 30];
    let deps = vec![(10i64, 20i64), (10, 99), (30, 10)];
    assert_eq!(edge_pairs(&ids, &deps), vec![(0, 1), (2, 0)]);
    assert_eq!(position_of(&ids, 30), Some(2));
    assert_eq!(position_of(&ids, 31), None);
}

#[test]
fn labels_and_links() {
    assert_eq!(node_label("main.rs"), "main.rs");
    assert_eq!(node_label("a_very_long_file_name.rs"), "a_very_long_file_...");
    assert_eq!(node_label("exactly_twenty_bytes"), "exactly_twenty_bytes");
    assert_eq!(file_url("C:/My Project/a b.rs"), "file:///C:/My%20Project/a%20b.rs");
    assert_eq!(node_name("/proj/src/db.rs"), "db.rs");
    assert_eq!(node_name("/"), "root");
}
