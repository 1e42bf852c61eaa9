//! Outcomes of selecting a slot and of one step of a blocking operation.

use vstd::prelude::*;

verus! {

/// Outcome of selecting a slot for writing.
#[derive(PartialEq, Eq, Clone, Copy, Debug, Structural)]
pub enum State {
    /// A slot is ready.
    Success,
    /// No slot is ready: the queue is full.
    Failed,
    /// The queue is closed.
    Closed,
}

/// One step of a blocking operation: it either finished with a result, or
/// must wait (for the other side to make progress) and hands back what it
/// still holds.
pub enum Step<R, W> {
    Done(R),
    Wait(W),
}

} // verus!
