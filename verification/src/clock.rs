//! The monotonic clock by which the modification guard measures age.

use vstd::prelude::*;
use std::time::Instant;

verus! {

/// A point of the machine's monotonic clock. Nothing inside it is visible to
/// a proof.
#[verifier::external_type_specification]
#[verifier::external_body]
pub struct ExInstant(std::time::Instant);

/// Calls `std::time::Instant::now`. The result depends on when it is called,
/// so nothing is claimed of it.
#[verifier::external_body]
pub(crate) fn instant_now() -> Instant {
    Instant::now()
}

/// Calls `std::time::Instant::elapsed` and gives the whole milliseconds of
/// the duration. The result depends on when it is called, so nothing is
/// claimed of it.
#[verifier::external_body]
pub(crate) fn millis_since(origin: &Instant) -> u64 {
    origin.elapsed().as_millis() as u64
}

} // verus!
