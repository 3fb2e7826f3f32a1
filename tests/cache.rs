use fezz::cache::LibraryCache;
use std::sync::Arc;

#[test]
fn cold_then_warm() {
    let mut c: LibraryCache<Arc<u32>> = LibraryCache::new(300_000);
    assert!(!c.touch("f:fezz.so", 10));
    assert!(c.install("f:fezz.so", Arc::new(1), 10));
    assert!(c.touch("f:fezz.so", 20));
    assert_eq!(**c.get("f:fezz.so").unwrap(), 1);
    assert_eq!(c.len(), 1);
}

#[test]
fn racing_loads_keep_the_first() {
    let mut c: LibraryCache<Arc<u32>> = LibraryCache::new(1000);
    let first = Arc::new(1);
    assert!(c.install("k", first.clone(), 5));
    for i in 2..10 {
        assert!(!c.install("k", Arc::new(i), 5 + i as u64));
    }
    assert!(Arc::ptr_eq(c.get("k").unwrap(), &first));
    assert_eq!(c.len(), 1);
}

#[test]
fn idle_entries_are_evicted_on_cleanup() {
    let mut c: LibraryCache<Arc<u32>> = LibraryCache::new(300_000);
    c.install("old", Arc::new(1), 0);
    c.install("fresh", Arc::new(2), 100_000);
    let held = c.get("old").unwrap().clone();
    assert_eq!(c.cleanup(300_000), 0);
    assert_eq!(c.cleanup(360_000), 1);
    assert!(c.get("old").is_none());
    assert!(c.get("fresh").is_some());
    assert_eq!(*held, 1);
    assert_eq!(c.cleanup(360_000 + 300_000 + 60_000), 1);
    assert_eq!(c.len(), 0);
}

#[test]
fn touch_keeps_an_entry_alive() {
    let mut c: LibraryCache<u8> = LibraryCache::new(10);
    c.install("k", 1, 0);
    assert!(c.touch("k", 8));
    assert_eq!(c.cleanup(15), 0);
    assert_eq!(c.cleanup(19), 1);
    assert_eq!(c.idle_ttl(), 10);
}
