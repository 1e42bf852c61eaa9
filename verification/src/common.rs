//! Items shared by the queues of the older layout.

use vstd::prelude::*;

verus! {

/// How many times a blocked operation polls before it parks.
pub const N_SPIN: u8 = 128;

/// Rounds of retries before parking, for the multi-producer queue.
pub const N_RETRY_MPMC: u8 = 2;

/// Rounds of retries before parking, for the single-producer queue.
pub const N_RETRY_SPSC: u8 = 1;

/// A waiter saw its slot become ready.
pub const SUCCESS: u8 = 0;

/// A waiter gave up waiting.
pub const FAILED: u8 = 1;

/// A waiter saw the queue closed.
pub const CLOSED: u8 = 2;

/// The side of the queue an operation works on.
#[derive(PartialEq, Eq, Clone, Copy, Debug, Structural)]
pub enum Operation {
    Sending,
    Receiving,
}

/// The slot chosen for an operation and the stamp it had.
#[derive(PartialEq, Eq, Clone, Copy, Debug, Structural)]
pub struct Selector {
    pub idx: u32,
    pub lap: u32,
}

impl Selector {
    /// A selector that points at slot 0 with stamp 0.
    pub fn new() -> (s: Self)
        ensures
            s.idx == 0,
            s.lap == 0,
    {
        Selector { idx: 0, lap: 0 }
    }

    /// Stores the chosen slot and its stamp.
    pub fn set(&mut self, idx: u32, lap: u32)
        ensures
            final(self).idx == idx,
            final(self).lap == lap,
    {
        self.idx = idx;
        self.lap = lap;
    }
}

} // verus!
