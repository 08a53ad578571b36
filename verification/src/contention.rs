//! Per-attempt contention counting and the thresholds that separate the
//! optimistic path from the helping path.

use vstd::prelude::*;

verus! {

/// An attempt whose contention count exceeds this value leaves the fast path.
pub const CONTENTION_THRESHOLD: usize = 2;

/// The largest number of optimistic attempts one call makes.
pub const RETRY_THRESHOLD: usize = 2;

/// Counts the interference observed during one attempt. Each attempt owns its
/// measure; it is never shared between callers.
pub struct ContentionMeasure(usize);

impl ContentionMeasure {
    /// The number of interferences recorded so far.
    pub closed spec fn count(&self) -> nat {
        self.0 as nat
    }

    /// A measure that has seen no interference.
    pub fn new() -> (fresh: Self)
        ensures
            fresh.count() == 0,
    {
        ContentionMeasure(0)
    }

    /// Records one interference. The result is `Err` with the new count once
    /// that count calls for the slow path, and `Ok` until then.
    pub fn detected(&mut self) -> (alarm: Result<(), usize>)
        requires
            old(self).count() < usize::MAX,
        ensures
            final(self).count() == old(self).count() + 1,
            final(self).count() <= CONTENTION_THRESHOLD ==> alarm is Ok,
            final(self).count() > CONTENTION_THRESHOLD ==> alarm == Err::<(), usize>(
                final(self).count() as usize,
            ),
    {
        self.0 = self.0 + 1;
        if self.0 > CONTENTION_THRESHOLD {
            Err(self.0)
        } else {
            Ok(())
        }
    }

    /// Whether the recorded interference exceeds `CONTENTION_THRESHOLD`.
    pub fn use_slow_path(&self) -> (slow: bool)
        ensures
            slow == (self.count() > CONTENTION_THRESHOLD),
    {
        self.0 > CONTENTION_THRESHOLD
    }
}

} // verus!
