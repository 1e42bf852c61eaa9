//! The multi-producer-multi-consumer bounded queue of the older layout.

pub mod queue;
