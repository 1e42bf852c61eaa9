//! Collecting results: from a fixed set of sources, and from calls shared by
//! key.

pub mod source;
pub mod flight;
