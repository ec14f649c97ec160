//! The pairing of one bounded cache with one function identity, guarded by a
//! mutual-exclusion lock.
//!
//! A `MemoizedBinding` owns exactly one `BoundedCache` for one function. The
//! lock's invariant ties every cached entry to that function: whenever the
//! cache is stored in (or read out of) the lock, each entry `(k, v)` satisfies
//! `v == f(k)` for the bound function `f`. A lookup therefore returns either
//! nothing or the one correct value for its key — whatever interleaving of
//! concurrent lookups and stores came before.
//!
//! The call protocol holds the lock only around the cache lookup and the cache
//! store, never around the execution of the memoized body: the body may
//! recursively re-enter the protocol, and both `lookup` and `store` take the
//! binding by shared reference, so a recursive self-call needs no re-borrow.
//!
//! Both guarded sections are verified free of panics, so the failure mode of
//! a fault while the lock is held — which would have to poison the binding —
//! cannot arise inside the library.

use crate::cache::{lemma_key_index, lemma_put_model_entries, lemma_touch_model, BoundedCache};
use crate::errors::ConfigError;
use vstd::prelude::*;
use vstd::rwlock::{RwLock, RwLockPredicate};

verus! {

/// The capacity a binding is given when its definition names none.
pub const DEFAULT_CAPACITY: usize = 1000;

/// The lock invariant of one binding: the cache is well formed, has the
/// capacity the binding was built with, and every entry holds the bound
/// function's value for its key.
pub struct BindingInv<V> {
    pub f: spec_fn(u64) -> V,
    pub capacity: usize,
}

impl<V: Copy> RwLockPredicate<BoundedCache<V>> for BindingInv<V> {
    open spec fn inv(self, c: BoundedCache<V>) -> bool {
        &&& c.wf()
        &&& c.spec_capacity() == self.capacity
        &&& forall|i: int| 0 <= i < c@.len() ==> (#[trigger] c@[i]).1 == (self.f)(c@[i].0)
    }
}

/// One function's cache behind one mutual-exclusion guard.
pub struct MemoizedBinding<V: Copy> {
    lock: RwLock<BoundedCache<V>, BindingInv<V>>,
}

impl<V: Copy> MemoizedBinding<V> {
    /// The function this binding memoizes, as a specification-level function
    /// from key to value.
    pub closed spec fn func(&self) -> spec_fn(u64) -> V {
        self.lock.pred().f
    }

    /// The capacity fixed when the binding was constructed.
    pub closed spec fn capacity(&self) -> usize {
        self.lock.pred().capacity
    }

    /// Build a binding for the function `f` with the given positive capacity.
    pub fn with_capacity(capacity: usize, Ghost(f): Ghost<spec_fn(u64) -> V>) -> (b: Self)
        requires
            capacity >= 1,
        ensures
            b.func() == f,
            b.capacity() == capacity,
    {
        let cache = BoundedCache::with_capacity(capacity);
        let ghost inv = BindingInv { f, capacity };
        let lock = RwLock::new(cache, Ghost(inv));
        MemoizedBinding { lock }
    }

    /// Build a binding, rejecting a zero capacity with a `ConfigError` that
    /// names the invalid capacity. Nothing of a failed construction is ever
    /// observable.
    pub fn new(capacity: usize, Ghost(f): Ghost<spec_fn(u64) -> V>) -> (r: Result<
        Self,
        ConfigError,
    >)
        ensures
            capacity == 0 ==> r == Result::<Self, ConfigError>::Err(ConfigError { capacity }),
            capacity >= 1 ==> {
                &&& r is Ok
                &&& r->Ok_0.func() == f
                &&& r->Ok_0.capacity() == capacity
            },
    {
        if capacity == 0 {
            Err(ConfigError { capacity })
        } else {
            Ok(Self::with_capacity(capacity, Ghost(f)))
        }
    }

    /// Protocol step on entry: acquire the lock, look the key up, release the
    /// lock. A hit returns a duplicate of the cached value, which is the bound
    /// function's value for `k`, and promotes the entry to most-recently-used;
    /// a miss returns nothing and leaves the cache unchanged.
    pub fn lookup(&self, k: u64) -> (r: Option<V>)
        ensures
            r is Some ==> r->0 == self.func()(k),
    {
        let (mut cache, handle) = self.lock.acquire_write();
        let ghost s = cache@;
        let r = cache.get(k);
        proof {
            lemma_touch_model(s, k);
            lemma_key_index(s, k);
            assert forall|i: int| 0 <= i < cache@.len() implies (#[trigger] cache@[i]).1 == (
            self.func())(cache@[i].0) by {
                assert(s.contains(cache@[i]));
                let j = choose|j: int| 0 <= j < s.len() && s[j] == cache@[i];
                assert(s[j].1 == (self.func())(s[j].0));
            }
        }
        handle.release_write(cache);
        r
    }

    /// Protocol step on exit: acquire the lock, store the result under its
    /// key (evicting the least-recently-used entry if the cache is full),
    /// release the lock. The caller must hand in the bound function's value
    /// for `k`; the store itself never fails.
    pub fn store(&self, k: u64, v: V)
        requires
            v == self.func()(k),
    {
        let (mut cache, handle) = self.lock.acquire_write();
        let ghost s = cache@;
        cache.put(k, v);
        proof {
            lemma_put_model_entries(s, self.capacity() as nat, k, v);
            assert forall|i: int| 0 <= i < cache@.len() implies (#[trigger] cache@[i]).1 == (
            self.func())(cache@[i].0) by {
                if s.contains(cache@[i]) {
                    let j = choose|j: int| 0 <= j < s.len() && s[j] == cache@[i];
                    assert(s[j].1 == (self.func())(s[j].0));
                }
            }
        }
        handle.release_write(cache);
    }

    /// The call protocol of an instrumented function, for a body that does
    /// not recurse into the binding: look the arguments up under the lock; on
    /// a hit return the cached duplicate before the body ever runs; on a miss
    /// release the lock, run the body, store its result under the lock, and
    /// return it. The body must be an implementation of the bound function —
    /// every output it can produce for an input is the bound function's value
    /// there — and then the call always returns that value, hit or miss.
    pub fn call<F: Fn(u64) -> V>(&self, body: &F, k: u64) -> (r: V)
        requires
            call_requires(*body, (k,)),
            forall|x: u64, y: V| call_ensures(*body, (x,), y) ==> y == self.func()(x),
        ensures
            r == self.func()(k),
    {
        match self.lookup(k) {
            Some(v) => v,
            None => {
                let r = body(k);
                self.store(k, r);
                r
            },
        }
    }

    /// Number of entries at the instant the lock is held; never exceeds the
    /// binding's capacity.
    pub fn len(&self) -> (n: usize)
        ensures
            n <= self.capacity(),
    {
        let (cache, handle) = self.lock.acquire_write();
        let n = cache.len();
        handle.release_write(cache);
        n
    }

    /// Law: concurrent calls for the same key converge. Whatever value a
    /// lookup observes for `k` — now or after any further stores by any
    /// thread — it is the single value the bound function assigns to `k`, so
    /// two successful lookups of the same key can never disagree.
    pub proof fn lemma_lookup_deterministic(&self, k: u64, r1: Option<V>, r2: Option<V>)
        requires
            r1 is Some ==> r1->0 == self.func()(k),
            r2 is Some ==> r2->0 == self.func()(k),
        ensures
            r1 is Some && r2 is Some ==> r1 == r2,
    {
    }
}

} // verus!
