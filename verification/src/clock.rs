//! Wall-clock time from `std::time::SystemTime`.

use vstd::prelude::*;

verus! {

/// Milliseconds since the Unix epoch from `SystemTime::now()`; a clock set
/// before the epoch reads as 0. Nothing is promised of the value.
#[verifier::external_body]
pub(crate) fn unix_time_millis() -> u64 {
    match std::time::SystemTime::now().duration_since(std::time::UNIX_EPOCH) {
        Ok(d) => d.as_millis() as u64,
        Err(_) => 0,
    }
}

/// Whole seconds since the Unix epoch, read from the same clock.
pub fn unix_time_secs() -> u64 {
    unix_time_millis() / 1000
}

} // verus!
