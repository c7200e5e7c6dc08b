use proxyia::local_embed::hash_str;
use proxyia::positional::{
    layout_applies, linked, neighbors_of, stable_hash_bits, Position3D, StablePositioner,
};

#[test]
fn position_bytes_roundtrip() {
    let p = Position3D { x: 0.25f32.to_bits(), y: 0.75f32.to_bits(), z: 0.1f32.to_bits() };
    let b = p.to_bytes();
    assert_eq!(b.len(), 12);
    assert_eq!(&b[0..4], &0.25f32.to_le_bytes());
    assert_eq!(Position3D::from_bytes(&b), Some(p));
}

#[test]
fn wrong_length_bytes_decode_to_nothing() {
    assert_eq!(Position3D::from_bytes(&[0u8; 11]), None);
    assert_eq!(Position3D::from_bytes(&[0u8; 13]), None);
    assert_eq!(Position3D::from_bytes(&[]), None);
}

#[test]
fn root_is_centred() {
    let r = StablePositioner::root_position();
    assert_eq!(f32::from_bits(r.x), 0.5);
    assert_eq!(f32::from_bits(r.y), 0.5);
    assert_eq!(f32::from_bits(r.z), 0.0);
}

#[test]
fn stable_hash_is_deterministic_and_below_two_to_53() {
    let a = stable_hash_bits("src/db.rs");
    let b = stable_hash_bits("src/db.rs");
    assert_eq!(a, b);
    assert_eq!(a, hash_str("src/db.rs") >> 11);
    assert!(a < (1u64 << 53));
    assert_ne!(stable_hash_bits("src/db.rs"), stable_hash_bits("src/scanner.rs"));
    let x = a as f32 / (1u64 << 53) as f32;
    assert!((0.0..=1.0).contains(&x));
}

#[test]
fn neighbours_follow_dependencies_both_ways() {
    let deps = vec![(1i64, 2i64), (3, 1), (2, 3), (1, 1)];
    assert_eq!(neighbors_of(&deps, 1), vec![2, 3, 1, 1]);
    assert_eq!(neighbors_of(&deps, 2), vec![1, 3]);
    assert_eq!(neighbors_of(&deps, 4), Vec::<i64>::new());
    assert!(linked(&deps, 1, 3));
    assert!(linked(&deps, 3, 1));
    assert!(!linked(&deps, 4, 1));
    for a in 1..=4 {
        for b in 1..=4 {
            assert_eq!(linked(&deps, a, b), linked(&deps, b, a));
        }
    }
}

#[test]
fn layout_needs_two_nodes_and_a_dependency() {
    assert!(layout_applies(2, 1));
    assert!(!layout_applies(1, 5));
    assert!(!layout_applies(5, 0));
}

fn unit_hash(s: &str) -> f32 {
    stable_hash_bits(s) as f32 / (1u64 << 53) as f32
}

#[test]
fn test_stable_hash_deterministic() {
    let a = unit_hash("src/db.rs");
    let b = unit_hash("src/db.rs");
    assert!((a - b).abs() < f32::EPSILON);
}

#[test]
fn test_stable_hash_different_inputs() {
    let a = unit_hash("src/db.rs");
    let b = unit_hash("src/scanner.rs");
    assert!((a - b).abs() > 0.001);
}
