//! The wall clock that stamps new blocks.

use vstd::prelude::*;

verus! {

/// Calls `chrono::Utc::now` and reads the result's `timestamp`: the seconds
/// since the Unix epoch.
///
/// Trusted, and nothing is claimed of the value: it depends on the machine's
/// clock. `Utc::now` does not return on a machine whose clock stands before
/// 1970.
#[verifier::external_body]
pub(crate) fn unix_time() -> (seconds: i64) {
    chrono::Utc::now().timestamp()
}

} // verus!
