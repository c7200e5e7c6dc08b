use proxyia::cache::{ProjectCache, QueryCache};

#[test]
fn project_cache_reads_back_what_was_stored() {
    let mut c: ProjectCache<Vec<u8>> = ProjectCache::new(2);
    assert_eq!(c.len(), 0);
    c.insert(7, vec![1, 2]);
    assert_eq!(c.get(7), Some(&vec![1, 2]));
    assert_eq!(c.get(8), None);
    c.insert(7, vec![3]);
    assert_eq!(c.get(7), Some(&vec![3]));
    assert_eq!(c.len(), 1);
}

#[test]
fn project_cache_evicts_fewest_hits_when_full() {
    let mut c: ProjectCache<&str> = ProjectCache::new(2);
    c.insert(1, "one");
    c.insert(2, "two");
    assert!(c.hit(1));
    assert!(c.hit(1));
    assert!(c.hit(2));
    c.insert(3, "three");
    assert_eq!(c.len(), 2);
    assert_eq!(c.get(2), None);
    assert_eq!(c.get(1), Some(&"one"));
    assert_eq!(c.get(3), Some(&"three"));
    assert!(!c.hit(9));
}

#[test]
fn project_cache_invalidate() {
    let mut c: ProjectCache<u32> = ProjectCache::new(5);
    c.insert(1, 10);
    c.insert(2, 20);
    c.invalidate(1);
    assert_eq!(c.get(1), None);
    assert_eq!(c.get(2), Some(&20));
    c.invalidate(42);
    assert_eq!(c.len(), 1);
}

#[test]
fn query_cache_clears_when_full() {
    let mut q: QueryCache<usize> = QueryCache::new();
    for i in 0..32 {
        q.insert(format!("q{}", i), i);
    }
    assert_eq!(q.len(), 32);
    assert_eq!(q.get("q5"), Some(&5));
    q.insert("q5".to_string(), 55);
    assert_eq!(q.len(), 1);
    assert_eq!(q.get("q5"), Some(&55));
    assert_eq!(q.get("q6"), None);
}

#[test]
fn query_cache_overwrites() {
    let mut q: QueryCache<&str> = QueryCache::new();
    q.insert("a".to_string(), "x");
    q.insert("a".to_string(), "y");
    assert_eq!(q.len(), 1);
    assert_eq!(q.get("a"), Some(&"y"));
}
