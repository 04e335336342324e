//! Draws from the thread-local random number generator.
use vstd::prelude::*;

verus! {

/// Relies on `rand::random_range`: for a non-empty inclusive range it returns
/// a value drawn from the range; it panics only when the range is empty.
#[verifier::external_body]
pub(crate) fn random_between(lo: i64, hi: i64) -> (r: i64)
    requires
        lo <= hi,
    ensures
        lo <= r <= hi,
{
    rand::random_range(lo..=hi)
}

} // verus!
