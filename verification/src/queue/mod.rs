//! Queues of the newer layout: bounded rings and unbounded chains of rings.

pub mod elem;
pub mod state;
pub mod bounded;
pub mod unbounded;
pub mod waker;
