//! Access to the wall clock. The current instant is an outside fact; every
//! function that reasons about time takes the instant as an argument and is
//! verified for every value of it.

use vstd::prelude::*;

verus! {

/// Relies on chrono::Utc::now: the current Unix timestamp in seconds.
/// Nothing is assumed of the value.
#[verifier::external_body]
pub fn current_unix_time() -> i64 {
    chrono::Utc::now().timestamp()
}

} // verus!
