//! Trusted edge to the system clock, which stamps the output records.

use vstd::prelude::*;

verus! {

/// Relies on std::time::SystemTime::now, with duration_since(UNIX_EPOCH)
/// and as_secs converting the reading: the wall clock's seconds since
/// the Unix epoch, or zero if the clock reads before the epoch.
/// Nothing is promised of the value.
#[verifier::external_body]
pub fn unix_now_secs() -> u64 {
    match std::time::SystemTime::now().duration_since(std::time::UNIX_EPOCH) {
        Ok(d) => d.as_secs(),
        Err(_) => 0,
    }
}

} // verus!
