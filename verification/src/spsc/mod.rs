//! The single-producer-single-consumer bounded queue of the older layout.

pub mod queue;
pub mod waker;
