//! The store's clock: wall-clock time in whole seconds since the Unix
//! epoch, assigned to every record at write time.

use vstd::prelude::*;

verus! {

/// Relies on `std::time::SystemTime::now` and `duration_since(UNIX_EPOCH)`:
/// the wall clock read as whole seconds since the Unix epoch. The clock is
/// outside the store's control, so nothing is promised of the value; it
/// panics only if the clock reads before the epoch.
#[verifier::external_body]
pub fn get_time() -> u64 {
    std::time::SystemTime::now().duration_since(std::time::UNIX_EPOCH).expect(
        "Time went backwards",
    ).as_secs()
}

} // verus!
