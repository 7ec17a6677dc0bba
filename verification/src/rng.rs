//! The one source of randomness the simulation uses: the horizontal
//! coordinate of a freshly spawned enemy.

use vstd::prelude::*;

verus! {

/// Relies on rand::random_range: a uniform draw from `0..bound`, which is
/// non-empty because `bound` is at least one, so the call does not panic and
/// the result lies strictly below `bound`.
#[verifier::external_body]
pub(crate) fn random_below(bound: i64) -> (r: i64)
    requires
        1 <= bound,
    ensures
        0 <= r < bound,
{
    rand::random_range(0..bound)
}

} // verus!
