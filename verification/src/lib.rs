//! Bounded and unbounded FIFO channels built on a lap-stamped ring buffer,
//! a wait-group counter and result collectors, each as a verified
//! single-owner state machine.

pub mod error;
pub mod ring;
pub mod queue;
pub mod common;
pub mod backoff;
pub mod wg;
pub mod single;
pub mod mpmc;
pub mod spsc;
