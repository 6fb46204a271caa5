//! The flag of a test-and-set spin lock. Acquiring swaps `true` in with
//! acquire ordering, so everything the previous holder wrote is visible;
//! releasing stores `false` with release ordering, so everything this holder
//! wrote becomes visible to the next.
use vstd::prelude::*;
use std::sync::atomic::{AtomicBool, Ordering};

verus! {

/// The held flag of a spin lock.
pub struct LockFlag {
    locked: AtomicBool,
}

impl LockFlag {
    /// A flag that is not held.
    pub fn new() -> (r: Self) {
        LockFlag { locked: AtomicBool::new(false) }
    }

    /// One test-and-set attempt: sets the flag and reports whether it was
    /// clear before, that is whether the caller now holds the lock. Another
    /// core may hold or take the flag at any moment, so either outcome may
    /// come back.
    pub fn try_acquire(&self) -> (acquired: bool) {
        !self.locked.swap(true, Ordering::Acquire)
    }

    /// Clears the flag; only the holder calls this, once per acquisition.
    pub fn release(&self) {
        self.locked.store(false, Ordering::Release);
    }
}

} // verus!
