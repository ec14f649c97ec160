//! Errors detected while a binding is being defined, before any call runs.

use vstd::prelude::*;

verus! {

/// The capacity handed to a cache or binding constructor was not a positive
/// integer. Carries the rejected capacity so the failure names it.
#[derive(Clone, Copy, Debug, PartialEq, Eq, Structural)]
pub struct ConfigError {
    pub capacity: usize,
}

/// An argument or return type of a function being instrumented lacks a
/// required capability: arguments must support equality and a stable hash (or
/// a total order), results must be duplicable. The instrumentation generator
/// detects this at definition time and names the offending type; it is never
/// observed at call time.
#[derive(Debug, PartialEq, Eq)]
pub struct TypeConstraintError {
    pub offending_type: String,
}

impl TypeConstraintError {
    pub fn new(offending_type: String) -> (r: Self)
        ensures
            r.offending_type == offending_type,
    {
        TypeConstraintError { offending_type }
    }
}

} // verus!
