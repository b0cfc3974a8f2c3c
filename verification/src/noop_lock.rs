//! A lock which does not synchronize anything, for single-threaded use.

use vstd::prelude::*;

verus! {

/// A lock that never blocks, for primitives that are only used from one
/// thread (equivalent to `UnsafeCell`).
#[derive(Debug)]
pub struct NoopLock {
    _private: (),
}

impl NoopLock {
    /// The initial (unlocked) lock.
    pub fn init() -> (lock: NoopLock) {
        NoopLock { _private: () }
    }

    /// Acquires the lock; this never blocks.
    pub fn lock(&self) {
    }

    /// Tries to acquire the lock; this always succeeds.
    pub fn try_lock(&self) -> (locked: bool)
        ensures
            locked,
    {
        true
    }

    /// Releases the lock.
    pub fn unlock(&self) {
    }
}

} // verus!
