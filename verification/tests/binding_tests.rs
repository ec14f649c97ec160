use memorize_func::binding::MemoizedBinding;
use memorize_func::errors::ConfigError;
use memorize_func::fib::{fib_memo, new_fib_binding};
use memorize_func::singleton::LazySingleton;
use std::sync::atomic::{AtomicUsize, Ordering};

#[test]
fn binding_capacity_zero_fails_construction() {
    let r = new_fib_binding(0);
    assert_eq!(r.err(), Some(ConfigError { capacity: 0 }));
}

#[test]
fn memoized_fib_returns_correct_values() {
    let b = new_fib_binding(100).unwrap();
    assert_eq!(fib_memo(&b, 0), 0);
    assert_eq!(fib_memo(&b, 1), 1);
    assert_eq!(fib_memo(&b, 10), 55);
    assert_eq!(fib_memo(&b, 20), 6765);
    // Repeated calls hit the cache and agree.
    assert_eq!(fib_memo(&b, 10), 55);
}

#[test]
fn lookup_after_calls_yields_the_single_correct_result() {
    let b = new_fib_binding(100).unwrap();
    assert_eq!(b.lookup(10), None);
    let r = fib_memo(&b, 10);
    assert_eq!(r, 55);
    // However many calls stored it, the cache holds the one correct value.
    assert_eq!(b.lookup(10), Some(55));
    fib_memo(&b, 10);
    assert_eq!(b.lookup(10), Some(55));
}

#[test]
fn binding_size_stays_under_capacity() {
    let b = new_fib_binding(5).unwrap();
    fib_memo(&b, 30);
    assert!(b.len() <= 5);
}

fn fib_value(n: u64) -> u64 {
    let mut a: u64 = 0;
    let mut b: u64 = 1;
    for _ in 0..n {
        let next = a.saturating_add(b);
        a = b;
        b = next;
    }
    a
}

// The protocol written against `lookup`/`store` directly, with a counter for
// how often the body really runs.
fn counted_fib(b: &MemoizedBinding<u64>, n: u64, runs: &AtomicUsize) -> u64 {
    if let Some(v) = b.lookup(n) {
        return v;
    }
    runs.fetch_add(1, Ordering::SeqCst);
    let r = if n == 0 {
        0
    } else if n == 1 {
        1
    } else {
        let x = counted_fib(b, n - 1, runs);
        let y = counted_fib(b, n - 2, runs);
        x.saturating_add(y)
    };
    assert_eq!(r, fib_value(n));
    b.store(n, r);
    r
}

#[test]
fn each_argument_computes_at_most_once() {
    let b = new_fib_binding(100).unwrap();
    let runs = AtomicUsize::new(0);
    assert_eq!(counted_fib(&b, 10, &runs), 55);
    // One real computation per distinct argument 0..=10.
    assert_eq!(runs.load(Ordering::SeqCst), 11);
    assert_eq!(counted_fib(&b, 10, &runs), 55);
    // The repeat call was answered from the cache alone.
    assert_eq!(runs.load(Ordering::SeqCst), 11);
}

#[test]
fn protocol_call_runs_body_only_on_miss() {
    let b = new_fib_binding(10).unwrap();
    let runs = AtomicUsize::new(0);
    let body = |n: u64| {
        runs.fetch_add(1, Ordering::SeqCst);
        fib_value(n)
    };
    assert_eq!(b.call(&body, 9), 34);
    assert_eq!(runs.load(Ordering::SeqCst), 1);
    // The second call is answered from the cache; the body never runs.
    assert_eq!(b.call(&body, 9), 34);
    assert_eq!(runs.load(Ordering::SeqCst), 1);
}

#[test]
fn singleton_runs_initializer_exactly_once() {
    let runs = AtomicUsize::new(0);
    let s = LazySingleton::new(|| {
        runs.fetch_add(1, Ordering::SeqCst);
        42u64
    });
    assert_eq!(runs.load(Ordering::SeqCst), 0);
    assert_eq!(*s.obtain(), 42);
    assert_eq!(*s.obtain(), 42);
    assert_eq!(*s.obtain(), 42);
    assert_eq!(runs.load(Ordering::SeqCst), 1);
}

#[test]
fn singleton_builds_one_binding_for_all_callers() {
    let s = LazySingleton::new(|| new_fib_binding(1000).unwrap());
    let b = s.obtain();
    assert_eq!(fib_memo(b, 10), 55);
    let b2 = s.obtain();
    // The same binding: the cached entry is already there.
    assert_eq!(b2.lookup(10), Some(55));
}
