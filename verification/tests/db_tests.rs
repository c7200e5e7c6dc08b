use proxyia::db::{decode_vector, encode_vector, exclude_id, like_pattern, nodes_missing_on_disk, project_by_prefix};

#[test]
fn vectors_roundtrip_through_blobs() {
    let v: Vec<u32> = [0.5f32, -1.25, 3.0].iter().map(|f| f.to_bits()).collect();
    let b = encode_vector(&v);
    assert_eq!(b.len(), 12);
    assert_eq!(&b[4..8], &(-1.25f32).to_le_bytes());
    assert_eq!(decode_vector(&b), v);
}

#[test]
fn trailing_bytes_are_ignored() {
    let b = [0u8, 0, 128, 63, 7];
    let v = decode_vector(&b);
    assert_eq!(v, vec![1.0f32.to_bits()]);
    assert!(decode_vector(&[1, 2, 3]).is_empty());
}

#[test]
fn project_found_by_prefix_either_way() {
    let rows = vec![(3i64, "/work/app/sub".to_string()), (1, "/work/app".to_string())];
    assert_eq!(project_by_prefix("/work/app/sub/x", &rows), Some(3));
    assert_eq!(project_by_prefix("/work/app/other", &rows), Some(1));
    assert_eq!(project_by_prefix("/work", &rows), Some(3));
    assert_eq!(project_by_prefix("/elsewhere", &rows), None);
}

#[test]
fn missing_nodes() {
    let indexed = vec![(1i64, "a.rs".to_string()), (2, "b.rs".to_string()), (3, "c.rs".to_string())];
    let existing = vec!["b.rs".to_string()];
    assert_eq!(nodes_missing_on_disk(&indexed, &existing), vec![1, 3]);
    assert!(nodes_missing_on_disk(&indexed, &["a.rs".into(), "b.rs".into(), "c.rs".into()]).is_empty());
}

#[test]
fn exclusion_and_like() {
    assert_eq!(exclude_id(vec![1, 2, 1, 3], Some(1)), vec![2, 3]);
    assert_eq!(exclude_id(vec![1, 2], None), vec![1, 2]);
    assert_eq!(like_pattern("conn"), "%conn%");
}
