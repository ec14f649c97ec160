use memorize_func::cache::BoundedCache;
use memorize_func::errors::{ConfigError, TypeConstraintError};

const A: u64 = 1;
const B: u64 = 2;
const C: u64 = 3;
const D: u64 = 4;

#[test]
fn capacity_zero_fails_construction() {
    let r = BoundedCache::<u64>::new(0);
    assert_eq!(r.err(), Some(ConfigError { capacity: 0 }));
}

#[test]
fn positive_capacity_constructs_empty() {
    let c = BoundedCache::<u64>::new(3).unwrap();
    assert_eq!(c.len(), 0);
    assert_eq!(c.capacity(), 3);
}

#[test]
fn get_after_put_returns_value() {
    let mut c = BoundedCache::new(4).unwrap();
    c.put(A, 10u64);
    assert_eq!(c.get(A), Some(10));
    c.put(B, 20);
    assert_eq!(c.get(B), Some(20));
    assert_eq!(c.get(A), Some(10));
}

#[test]
fn get_absent_returns_none_and_keeps_size() {
    let mut c = BoundedCache::new(4).unwrap();
    c.put(A, 10u64);
    c.put(B, 20);
    let before = c.len();
    assert_eq!(c.get(C), None);
    assert_eq!(c.len(), before);
    assert_eq!(c.get(A), Some(10));
    assert_eq!(c.get(B), Some(20));
}

#[test]
fn size_never_exceeds_capacity() {
    let mut c = BoundedCache::new(5).unwrap();
    let mut k: u64 = 0;
    while k < 100 {
        c.put(k, k);
        assert!(c.len() <= 5);
        k += 1;
    }
    assert_eq!(c.len(), 5);
    // Re-using keys never grows the cache either.
    let mut i: u64 = 95;
    while i < 100 {
        c.put(i, i + 1);
        assert!(c.len() <= 5);
        i += 1;
    }
}

#[test]
fn eviction_removes_exactly_the_lru_entry() {
    let mut c = BoundedCache::new(2).unwrap();
    c.put(A, 1u64);
    c.put(B, 2);
    c.put(C, 3);
    // A was least recently used: only A left.
    assert_eq!(c.get(A), None);
    assert_eq!(c.get(B), Some(2));
    assert_eq!(c.get(C), Some(3));
    assert_eq!(c.len(), 2);
}

#[test]
fn get_promotes_key_past_next_eviction() {
    let mut c = BoundedCache::new(2).unwrap();
    c.put(B, 2u64);
    c.put(C, 3);
    // B is the oldest entry; a get promotes it to most-recently-used.
    assert_eq!(c.get(B), Some(2));
    c.put(D, 4);
    // C, not B, was the eviction victim.
    assert_eq!(c.get(B), Some(2));
    assert_eq!(c.get(D), Some(4));
    assert_eq!(c.get(C), None);
}

#[test]
fn spec_scenario_capacity_two() {
    let mut c = BoundedCache::new(2).unwrap();
    c.put(A, 1u64);
    c.put(B, 2);
    c.put(C, 3);
    assert_eq!(c.get(A), None);
    assert_eq!(c.get(B), Some(2));
    assert_eq!(c.get(C), Some(3));
    assert_eq!(c.get(B), Some(2));
    c.put(D, 4);
    assert_eq!(c.get(B), Some(2));
    assert_eq!(c.get(D), Some(4));
    assert_eq!(c.get(C), None);
}

#[test]
fn capacity_one_evicts_sole_entry_on_distinct_key() {
    let mut c = BoundedCache::new(1).unwrap();
    c.put(A, 1u64);
    c.put(B, 2);
    assert_eq!(c.get(A), None);
    assert_eq!(c.get(B), Some(2));
    assert_eq!(c.len(), 1);
}

#[test]
fn put_of_existing_key_never_evicts() {
    let mut c = BoundedCache::new(1).unwrap();
    c.put(A, 1u64);
    c.put(A, 9);
    assert_eq!(c.len(), 1);
    assert_eq!(c.get(A), Some(9));

    let mut c2 = BoundedCache::new(2).unwrap();
    c2.put(A, 1u64);
    c2.put(B, 2);
    c2.put(A, 7);
    // Overwriting A evicted nothing.
    assert_eq!(c2.get(B), Some(2));
    assert_eq!(c2.get(A), Some(7));
}

#[test]
fn contains_key_reports_presence() {
    let mut c = BoundedCache::new(2).unwrap();
    assert!(!c.contains_key(A));
    c.put(A, 1u64);
    assert!(c.contains_key(A));
    assert!(!c.contains_key(B));
}

#[test]
fn type_constraint_error_names_the_type() {
    let e = TypeConstraintError::new(String::from("NotHashable"));
    assert_eq!(e.offending_type, "NotHashable");
}
