//! Tests of the storage engine: lookups, accounting, eviction.

use blink_store::{entry_size, BlinkError, BlinkStorage, MemoryEngine};

fn engine(limit_bytes: u64) -> MemoryEngine {
    MemoryEngine::new(limit_bytes).unwrap()
}

#[test]
fn get_missing_returns_none() {
    let mut e = engine(1024);
    let v = e.get(b"missing").unwrap();
    assert!(v.is_none());
}

#[test]
fn set_and_get() {
    let mut e = engine(1024);
    e.set(b"k", b"hello".to_vec()).unwrap();
    let v = e.get(b"k").unwrap().unwrap();
    assert_eq!(v, b"hello");
}

#[test]
fn delete_removes_key() {
    let mut e = engine(1024);
    e.set(b"k", b"v".to_vec()).unwrap();
    let ok = e.delete(b"k").unwrap();
    assert!(ok);
    assert!(e.get(b"k").unwrap().is_none());
}

#[test]
fn delete_missing_returns_false() {
    let mut e = engine(1024);
    let ok = e.delete(b"missing").unwrap();
    assert!(!ok);
}

#[test]
fn current_usage_tracks_bytes() {
    let mut e = engine(1024);
    assert_eq!(e.current_usage_bytes().unwrap(), 0);
    e.set(b"a", b"xx".to_vec()).unwrap(); // key "a" = 1, value = 2 -> 3
    assert_eq!(e.current_usage_bytes().unwrap(), 3);
    e.set(b"ab", b"y".to_vec()).unwrap(); // key "ab" = 2, value = 1 -> 3, total 6
    assert_eq!(e.current_usage_bytes().unwrap(), 6);
    e.delete(b"a").unwrap();
    assert_eq!(e.current_usage_bytes().unwrap(), 3);
}

#[test]
fn eviction_when_over_limit() {
    let mut e = engine(10); // 10 bytes total
    e.set(b"a", b"111".to_vec()).unwrap(); // 1+3=4
    e.set(b"b", b"2222".to_vec()).unwrap(); // 1+4=5, total 9
    e.set(b"c", b"x".to_vec()).unwrap(); // 1+1=2, total 11 > 10 -> evict a (4), then 5+2=7 ok
    assert!(e.get(b"a").unwrap().is_none());
    assert_eq!(e.get(b"b").unwrap().unwrap(), b"2222");
    assert_eq!(e.get(b"c").unwrap().unwrap(), b"x");
}

#[test]
fn replace_key_updates_usage() {
    let mut e = engine(20);
    e.set(b"k", b"aaa".to_vec()).unwrap(); // 1+3=4
    e.set(b"k", b"bb".to_vec()).unwrap(); // 1+2=3, total 4-4+3=3
    assert_eq!(e.current_usage_bytes().unwrap(), 3);
    assert_eq!(e.get(b"k").unwrap().unwrap(), b"bb");
}

/// Interaction via BlinkStorage trait (abstraction layer).
#[test]
fn trait_interface() {
    let mut store: Box<dyn BlinkStorage> = Box::new(engine(1024));
    store.set(b"trait_key", b"trait_value".to_vec()).unwrap();
    let v = store.get(b"trait_key").unwrap().unwrap();
    assert_eq!(v, b"trait_value");
    assert!(store.delete(b"trait_key").unwrap());
}

#[test]
fn eviction_follows_recency_of_get() {
    let mut e = engine(10);
    e.set(b"a", b"111".to_vec()).unwrap(); // 4 bytes
    e.set(b"b", b"2222".to_vec()).unwrap(); // 5 bytes, total 9
    // Touch "a": now "b" is the least recently used.
    assert_eq!(e.get(b"a").unwrap().unwrap(), b"111");
    e.set(b"c", b"x".to_vec()).unwrap(); // needs 2 -> evicts "b" (the LRU), not "a"
    assert_eq!(e.get(b"a").unwrap().unwrap(), b"111");
    assert!(e.get(b"b").unwrap().is_none());
    assert_eq!(e.get(b"c").unwrap().unwrap(), b"x");
}

#[test]
fn set_over_limit_fails_at_capacity_and_keeps_store() {
    let mut e = engine(5);
    e.set(b"a", b"1".to_vec()).unwrap(); // 2 bytes
    let r = e.set(b"big", b"123456".to_vec()); // 9 bytes > 5: cannot ever fit
    assert!(matches!(r, Err(BlinkError::AtCapacity)));
    // The failed set left the store unchanged.
    assert_eq!(e.get(b"a").unwrap().unwrap(), b"1");
    assert_eq!(e.current_usage_bytes().unwrap(), 2);
}

#[test]
fn successful_set_respects_limit() {
    let mut e = engine(10);
    e.set(b"a", b"111".to_vec()).unwrap();
    e.set(b"b", b"2222".to_vec()).unwrap();
    e.set(b"c", b"xxxxxxx".to_vec()).unwrap(); // 8 bytes: evicts both others
    assert!(e.current_usage_bytes().unwrap() <= 10);
    assert!(e.get(b"a").unwrap().is_none());
    assert!(e.get(b"b").unwrap().is_none());
    assert_eq!(e.get(b"c").unwrap().unwrap(), b"xxxxxxx");
}

#[test]
fn delete_twice_is_idempotent() {
    let mut e = engine(100);
    e.set(b"k", b"v".to_vec()).unwrap();
    let usage_before = e.current_usage_bytes().unwrap();
    assert!(e.delete(b"absent").unwrap() == false);
    assert_eq!(e.current_usage_bytes().unwrap(), usage_before);
    assert!(e.delete(b"k").unwrap());
    assert!(!e.delete(b"k").unwrap());
    assert_eq!(e.current_usage_bytes().unwrap(), 0);
}

#[test]
fn entry_size_counts_key_and_value_bytes() {
    assert_eq!(entry_size(b"a", b"xx"), 3);
    assert_eq!(entry_size(b"", b""), 0);
    assert_eq!(entry_size(b"key", b"hello"), 8);
}

#[test]
fn error_messages() {
    assert_eq!(
        BlinkError::NotFound(b"k".to_vec()).message(),
        b"key not found: k"
    );
    assert_eq!(
        BlinkError::AtCapacity.message(),
        b"storage is at capacity and eviction failed"
    );
    assert_eq!(
        BlinkError::Internal(b"boom".to_vec()).message(),
        b"internal error: boom"
    );
}

#[test]
fn usage_matches_live_entries_after_mixed_ops() {
    let mut e = engine(1000);
    e.set(b"one", b"11".to_vec()).unwrap(); // 5
    e.set(b"two", b"222".to_vec()).unwrap(); // 6
    e.set(b"three", b"3".to_vec()).unwrap(); // 6
    e.get(b"one").unwrap(); // touch, no size change
    e.delete(b"two").unwrap(); // -6
    e.set(b"one", b"1".to_vec()).unwrap(); // 5 -> 4
    // live: one (4), three (6)
    assert_eq!(e.current_usage_bytes().unwrap(), 10);
}
