use chat_observer::fingerprint::{fingerprint, MessageFingerprint};
use chat_observer::record::RawMessageRecord;
use chat_observer::store::SeenMessageStore;

fn record(body: &str) -> RawMessageRecord {
    RawMessageRecord {
        sender_label: String::from("Alice"),
        body_text: String::from(body),
        rendered_timestamp: String::from("10:00"),
        dom_position_hint: 0,
    }
}

fn fp(body: &str) -> MessageFingerprint {
    fingerprint(&record(body))
}

#[test]
fn empty_store_contains_nothing() {
    let store = SeenMessageStore::new(500);
    assert!(!store.contains(&fp("A")));
    assert_eq!(store.len(), 0);
    assert_eq!(store.capacity(), 500);
}

#[test]
fn insert_then_contains() {
    let mut store = SeenMessageStore::new(500);
    store.insert(fp("A"));
    assert!(store.contains(&fp("A")));
    assert!(!store.contains(&fp("B")));
    assert_eq!(store.len(), 1);
}

#[test]
fn insert_is_idempotent() {
    let mut store = SeenMessageStore::new(500);
    store.insert(fp("A"));
    store.insert(fp("A"));
    assert_eq!(store.len(), 1);
    assert!(store.contains(&fp("A")));
}

#[test]
fn eviction_at_capacity_two() {
    // Capacity 2; inserting A, B, C in order leaves {B, C} and evicts A.
    let mut store = SeenMessageStore::new(2);
    store.insert(fp("A"));
    store.insert(fp("B"));
    store.insert(fp("C"));
    assert_eq!(store.len(), 2);
    assert!(!store.contains(&fp("A")));
    assert!(store.contains(&fp("B")));
    assert!(store.contains(&fp("C")));
}

#[test]
fn eviction_boundary_exact_count() {
    // N + 1 distinct fingerprints into a store of capacity N leave exactly
    // N members, with the least recently inserted one evicted.
    let n = 5;
    let mut store = SeenMessageStore::new(n);
    let bodies = ["m0", "m1", "m2", "m3", "m4", "m5"];
    for body in bodies.iter() {
        store.insert(fp(body));
    }
    assert_eq!(store.len(), n);
    assert!(!store.contains(&fp("m0")));
    for body in bodies.iter().skip(1) {
        assert!(store.contains(&fp(body)));
    }
}

#[test]
fn reinsert_does_not_reset_age() {
    // Re-inserting an existing key is a no-op, so it does not protect the
    // key from eviction: A stays the oldest entry and is evicted first.
    let mut store = SeenMessageStore::new(2);
    store.insert(fp("A"));
    store.insert(fp("B"));
    store.insert(fp("A"));
    store.insert(fp("C"));
    assert!(!store.contains(&fp("A")));
    assert!(store.contains(&fp("B")));
    assert!(store.contains(&fp("C")));
}
