//! Deferred, exactly-once, thread-safe construction of a shared value.
//!
//! A `LazySingleton` pairs an empty once-cell with the zero-argument
//! initializer fixed at construction. The first `obtain`, from whichever
//! thread, runs the initializer exactly once; every caller, concurrent first
//! callers included, observes the same fully constructed value, and later
//! calls are cheap reads. The cell is filled only ever by that one stored
//! initializer, so each returned reference satisfies the initializer's
//! postcondition.
//!
//! Reentrant initialization — the initializer itself reaching back into the
//! same singleton before it has finished — is out of contract: the underlying
//! cell may then block forever, as the documentation of
//! `std::sync::OnceLock::get_or_init` states.

use vstd::prelude::*;

verus! {

/// `std::sync::OnceLock`, opaque: a cell written at most once.
#[verifier::external_type_specification]
#[verifier::external_body]
#[verifier::reject_recursive_types(T)]
pub struct ExOnceLock<T>(std::sync::OnceLock<T>);

/// Relies on std::sync::OnceLock::new: builds an empty cell. The cell is
/// opaque here; what its content satisfies is governed by `obtain`, the only
/// place the library ever fills it.
#[verifier::external_body]
fn new_once_cell<T>() -> std::sync::OnceLock<T> {
    std::sync::OnceLock::new()
}

/// A value constructed on first access by an initializer fixed at
/// construction time.
#[verifier::reject_recursive_types(T)]
pub struct LazySingleton<T, F> where F: Fn() -> T {
    cell: std::sync::OnceLock<T>,
    init: F,
}

impl<T, F: Fn() -> T> LazySingleton<T, F> {
    /// The initializer this singleton was built with.
    pub closed spec fn initializer(&self) -> F {
        self.init
    }

    /// Wrap the initializer; nothing runs yet.
    pub fn new(init: F) -> (s: Self)
        ensures
            s.initializer() == init,
    {
        let cell = new_once_cell();
        LazySingleton { cell, init }
    }

    /// Relies on std::sync::OnceLock::get_or_init: across all threads the
    /// closure runs at most once, every call returns a reference to the one
    /// value the cell was filled with, and concurrent first calls block until
    /// that value is ready. The cell is private and only ever filled here, by
    /// the initializer stored in `new`, so the returned value is an output of
    /// that initializer.
    #[verifier::external_body]
    pub fn obtain(&self) -> (r: &T)
        requires
            call_requires(self.initializer(), ()),
        ensures
            call_ensures(self.initializer(), (), *r),
    {
        self.cell.get_or_init(|| (self.init)())
    }
}

} // verus!
