//! The monotonic clock of the standard library.
//!
//! Nothing in this file is proved, and nothing is claimed of what the clock
//! reads: callers are verified for every reading.

use std::time::Instant;
use vstd::prelude::*;

verus! {

/// `std::time::Instant`, as a value that is carried and never looked into.
#[verifier::external_type_specification]
#[verifier::external_body]
pub struct ExInstant(Instant);

/// `Instant::now`: the clock's reading at the time of the call.
#[verifier::external_body]
pub(crate) fn start_timer() -> Instant {
    Instant::now()
}

/// `Instant::elapsed`, in whole milliseconds: the time that has passed
/// since `start` was read.
#[verifier::external_body]
pub(crate) fn elapsed_millis(start: &Instant) -> u128 {
    start.elapsed().as_millis()
}

} // verus!
