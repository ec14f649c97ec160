//! A memoized function bound to a cache: Fibonacci with saturating addition.
//!
//! This is the call protocol of an instrumented function, written out and
//! verified: look the argument up under the lock; on a hit return the cached
//! duplicate before the body ever runs; on a miss run the body — which
//! recursively re-enters the protocol — then store the result and return it.
//! The lock is never held around the body, so the recursive self-calls cannot
//! deadlock.

use crate::binding::MemoizedBinding;
use crate::errors::ConfigError;
use vstd::prelude::*;

verus! {

/// The Fibonacci numbers, with the addition saturating at `u64::MAX` so every
/// argument has a defined value.
pub open spec fn spec_fib(n: u64) -> u64
    decreases n,
{
    if n == 0 {
        0
    } else if n == 1 {
        1
    } else {
        let a = spec_fib((n - 1) as u64);
        let b = spec_fib((n - 2) as u64);
        if a + b > u64::MAX {
            u64::MAX
        } else {
            (a + b) as u64
        }
    }
}

/// The function identity a Fibonacci binding is built around.
pub open spec fn fib_func() -> spec_fn(u64) -> u64 {
    |n: u64| spec_fib(n)
}

/// Build the binding that memoizes Fibonacci, rejecting a zero capacity with
/// a `ConfigError` that names the invalid capacity.
pub fn new_fib_binding(capacity: usize) -> (r: Result<MemoizedBinding<u64>, ConfigError>)
    ensures
        capacity == 0 ==> r == Result::<MemoizedBinding<u64>, ConfigError>::Err(
            ConfigError { capacity },
        ),
        capacity >= 1 ==> {
            &&& r is Ok
            &&& r->Ok_0.func() == fib_func()
            &&& r->Ok_0.capacity() == capacity
        },
{
    MemoizedBinding::new(capacity, Ghost(fib_func()))
}

/// Call Fibonacci through its binding: lookup, on a miss compute the body
/// (recursing through this same protocol), store, return. Always returns the
/// one correct value, whatever the cache held beforehand.
pub fn fib_memo(b: &MemoizedBinding<u64>, n: u64) -> (r: u64)
    requires
        b.func() == fib_func(),
    ensures
        r == spec_fib(n),
    decreases n,
{
    match b.lookup(n) {
        Some(v) => v,
        None => {
            let r = if n == 0 {
                0
            } else if n == 1 {
                1
            } else {
                let a = fib_memo(b, n - 1);
                let c = fib_memo(b, n - 2);
                a.saturating_add(c)
            };
            b.store(n, r);
            r
        },
    }
}

} // verus!
