//! A counter that tells when a collection of tasks has finished.

use vstd::prelude::*;

verus! {

/// Counts the tasks still running. [`done`] tells when the last one
/// finished, which is when waiters are released; [`should_wait`] tells
/// whether a waiter must keep waiting.
///
/// [`done`]: WaitGroup::done
/// [`should_wait`]: WaitGroup::should_wait
pub struct WaitGroup {
    count: u32,
}

impl WaitGroup {
    /// The counter.
    pub closed spec fn count(&self) -> int {
        self.count as int
    }

    /// The counter is a `u32`.
    pub proof fn lemma_count_range(&self)
        ensures
            0 <= self.count() <= u32::MAX,
    {
    }

    /// A group of `n` tasks.
    pub fn new(n: u32) -> (wg: Self)
        ensures
            wg.count() == n,
    {
        WaitGroup { count: n }
    }

    /// Adds `n` to the counter, wrapping around at `2^32`.
    pub fn add(&mut self, n: u32)
        ensures
            final(self).count() == (old(self).count() + n) % 0x1_0000_0000,
    {
        self.count = self.count.wrapping_add(n);
    }

    /// Marks one task finished. Returns true when it was the last one, in
    /// which case every waiter must be released.
    pub fn done(&mut self) -> (release: bool)
        requires
            old(self).count() >= 1,
        ensures
            final(self).count() == old(self).count() - 1,
            release == (old(self).count() == 1),
    {
        let count = self.count;
        self.count = count - 1;
        count == 1
    }

    /// Whether tasks are still running.
    pub fn should_wait(&self) -> (b: bool)
        ensures
            b == (self.count() > 0),
    {
        self.count > 0
    }
}

impl Default for WaitGroup {
    /// A group of no task.
    fn default() -> (wg: Self)
        ensures
            wg.count() == 0,
    {
        Self::new(0)
    }
}

} // verus!
