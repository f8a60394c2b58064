//! Wrapper for the random draws the breathing overlay paces itself by.

use vstd::prelude::*;

verus! {

/// Relies on `rand::random_range`: a draw from the thread-local generator
/// within the given inclusive bounds. It panics only on an empty range,
/// which the precondition excludes; nothing more can be said of a random
/// value than its bounds.
#[verifier::external_body]
pub(crate) fn random_in_range(lo: u64, hi: u64) -> (r: u64)
    requires
        lo <= hi,
    ensures
        lo <= r <= hi,
{
    rand::random_range(lo..=hi)
}

} // verus!
