//! The system clock.

use vstd::prelude::*;

verus! {

/// The system time in whole seconds since the Unix epoch, read with
/// `std::time::SystemTime::now`; 0 where the clock stands before the epoch.
/// Nothing is claimed of the value: two readings may differ either way.
#[verifier::external_body]
pub(crate) fn now() -> u64 {
    match std::time::SystemTime::now().duration_since(std::time::UNIX_EPOCH) {
        Ok(d) => d.as_secs(),
        Err(_) => 0,
    }
}

} // verus!
