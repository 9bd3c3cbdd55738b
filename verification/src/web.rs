//! What the service answers to its callers.

pub mod handlers;
