//! A bounded, mutual-exclusion-guarded memoization core.
//!
//! The crate provides a fixed-capacity key/value store with least-recently-used
//! eviction ([`cache::BoundedCache`]), a deferred exactly-once initializer
//! ([`singleton::LazySingleton`]), and the pairing of one cache with one
//! function identity ([`binding::MemoizedBinding`]), together with the call
//! protocol that routes an invocation through the cache: look the arguments up,
//! run the body only on a miss, store the result.
//!
//! A call's arguments are identified by a `u64` key with plain equality and a
//! total order; a binding's contracts treat the function it memoizes as a
//! mapping from that key to a duplicable (`Copy`) result value.

pub mod binding;
pub mod cache;
pub mod errors;
pub mod fib;
pub mod singleton;
