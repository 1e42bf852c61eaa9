//! Exponential backoff for retry loops.

use vstd::prelude::*;

verus! {

/// Steps up to which a backoff only spins.
pub const SPIN_LIMIT: u32 = 6;

/// Steps after which a blocking backoff advises to stop backing off.
pub const YIELD_LIMIT: u32 = 10;

/// Tells the processor that the caller is in a spin-wait loop.
#[verifier::external_body]
fn cpu_relax() {
    core::hint::spin_loop();
}

/// Spins `2^n` times.
fn spin_times(n: u32)
    requires
        n <= SPIN_LIMIT,
{
    let rounds: u32 = 1u32 << n;
    let mut i: u32 = 0;
    while i < rounds
        invariant
            i <= rounds,
        decreases rounds - i,
    {
        cpu_relax();
        i = i + 1;
    }
}

/// The outcome of one blocking backoff step.
#[derive(PartialEq, Eq, Clone, Copy, Debug, Structural)]
pub struct Snooze {
    /// The caller should give up its time slice to the scheduler.
    pub yield_now: bool,
    /// The caller should stop backing off and block by other means.
    pub completed: bool,
}

/// Makes the current thread wait for a short time, longer at each step.
pub struct Backoff {
    step: u32,
}

impl Backoff {
    /// The number of steps taken so far.
    pub closed spec fn step(&self) -> int {
        self.step as int
    }

    /// A backoff at step 0.
    pub fn new() -> (b: Self)
        ensures
            b.step() == 0,
    {
        Backoff { step: 0 }
    }

    /// Goes back to step 0.
    pub fn reset(&mut self)
        ensures
            final(self).step() == 0,
    {
        self.step = 0;
    }

    /// Backs off in a lock-free loop: spins `2^min(step, SPIN_LIMIT)` times and
    /// moves to the next step while the step is at most `SPIN_LIMIT`.
    pub fn spin(&mut self)
        ensures
            final(self).step() == if old(self).step() <= SPIN_LIMIT {
                old(self).step() + 1
            } else {
                old(self).step()
            },
    {
        let n = if self.step < SPIN_LIMIT { self.step } else { SPIN_LIMIT };
        spin_times(n);
        if self.step <= SPIN_LIMIT {
            self.step = self.step + 1;
        }
    }

    /// Backs off in a blocking loop: while the step is at most `SPIN_LIMIT`,
    /// spins `2^step` times and moves to the next step; after that, returns
    /// true to tell the caller to yield its time slice.
    pub fn snooze(&mut self) -> (yield_now: bool)
        ensures
            yield_now == (old(self).step() > SPIN_LIMIT),
            final(self).step() == if old(self).step() <= SPIN_LIMIT {
                old(self).step() + 1
            } else {
                old(self).step()
            },
    {
        if self.step <= SPIN_LIMIT {
            spin_times(self.step);
            self.step = self.step + 1;
            false
        } else {
            true
        }
    }

    /// Backs off in a blocking loop and tells when to stop: spins
    /// `2^step` times while the step is at most `SPIN_LIMIT` and asks the
    /// caller to yield after that; moves to the next step while the step is
    /// at most `YIELD_LIMIT`, and reports completion after that.
    pub fn snooze_completed(&mut self) -> (s: Snooze)
        ensures
            s.yield_now == (old(self).step() > SPIN_LIMIT),
            s.completed == (old(self).step() > YIELD_LIMIT),
            final(self).step() == if old(self).step() <= YIELD_LIMIT {
                old(self).step() + 1
            } else {
                old(self).step()
            },
    {
        let mut yield_now = false;
        if self.step <= SPIN_LIMIT {
            spin_times(self.step);
        } else {
            yield_now = true;
        }
        if self.step <= YIELD_LIMIT {
            self.step = self.step + 1;
            return Snooze { yield_now, completed: false };
        }
        Snooze { yield_now, completed: true }
    }
}

impl Default for Backoff {
    /// A backoff at step 0.
    fn default() -> (b: Self)
        ensures
            b.step() == 0,
    {
        Backoff::new()
    }
}

} // verus!
