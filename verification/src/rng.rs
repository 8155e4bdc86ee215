//! The one randomized operation: a uniform draw from an integer range.

use vstd::prelude::*;
use rand::RngExt;

verus! {

/// Relies on rand's `RngExt::random_range` over `lo..=hi` on the thread-local
/// generator: the sample falls within the requested non-empty range. Nothing
/// more can be said of a random draw.
#[verifier::external_body]
pub(crate) fn random_in_range(lo: i64, hi: i64) -> (r: i64)
    requires
        lo <= hi,
    ensures
        lo <= r <= hi,
{
    rand::rng().random_range(lo..=hi)
}

} // verus!
