//! Trusted readings of the wall clock.
//!
//! A clock reading depends on the environment, so nothing is promised of
//! these values; every function that computes from a reading takes it as an
//! argument and is verified for all values the caller may pass.

use vstd::prelude::*;

verus! {

/// Relies on `std::time::SystemTime::now` and `duration_since`:
/// milliseconds since the Unix epoch.  Assumes the system clock reads at or
/// after the Unix epoch.
#[verifier::external_body]
pub fn current_timestamp_ms() -> u128 {
    std::time::SystemTime::now().duration_since(std::time::UNIX_EPOCH).unwrap().as_millis()
}

} // verus!
