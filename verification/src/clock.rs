//! The one clock read this crate makes.  Everything that reasons about
//! time takes the timestamp as an argument and is verified for every value
//! of it.

use vstd::prelude::*;

verus! {

/// Relies on chrono's `Utc::now` for the current unix timestamp in
/// seconds.  Nothing is promised of the value: callers hand it to verified
/// functions that hold for every reading.
#[verifier::external_body]
pub(crate) fn unix_now() -> i64 {
    chrono::Utc::now().timestamp()
}

} // verus!
