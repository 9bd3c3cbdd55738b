//! The result cache.

pub mod memory;
