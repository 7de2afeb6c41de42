//! The simulation's source of randomness.

use vstd::prelude::*;
use rand::Rng;

verus! {

/// Relies on `rand::thread_rng` and `rand::Rng::gen_range`: a value drawn
/// uniformly from the inclusive range `lo..=hi`, which is non-empty because
/// `lo <= hi` (`gen_range` panics on an empty range and on nothing else).
/// Nothing beyond membership in the range can be promised of a random draw.
#[verifier::external_body]
pub fn rand_in_range(lo: i64, hi: i64) -> (r: i64)
    requires
        lo <= hi,
    ensures
        lo <= r <= hi,
{
    rand::thread_rng().gen_range(lo..=hi)
}

/// The coin for the left/right tie-break when a block can slide to either
/// side.  Both outcomes occur: the result is a fresh uniform draw.
pub fn flip_coin() -> bool {
    rand_in_range(0, 1) == 0
}

} // verus!
