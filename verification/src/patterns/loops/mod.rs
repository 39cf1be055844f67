//! Recovers loops.

pub mod for_of;
