//! Moments in time, as the standard library keeps them.

use vstd::prelude::*;

use std::time::{SystemTime, UNIX_EPOCH};

verus! {

/// A moment, as `std::time::Instant` measures it.
#[verifier::external_type_specification]
#[verifier::external_body]
pub struct ExInstant(std::time::Instant);

/// `SystemTime::now().duration_since(UNIX_EPOCH)`, in whole milliseconds
/// (0 where the clock is set before 1970, low 64 bits of the count). It
/// depends on the clock, so nothing is stated of it.
#[verifier::external_body]
pub(crate) fn now_millis() -> u64 {
    SystemTime::now().duration_since(UNIX_EPOCH).map(|d| d.as_millis() as u64).unwrap_or(0)
}

} // verus!
