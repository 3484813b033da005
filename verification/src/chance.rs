//! Where the lottery gets its numbers from.

use rand::Rng;
use vstd::prelude::*;

verus! {

/// Calls `gen_range` of `rand::Rng` on the generator that `rand::thread_rng`
/// hands out, with the range from 0 up to, and not including, `bound`.
/// `gen_range` panics on an empty range, so `bound` must not be 0. All that
/// is claimed of the number is that it lies in the range; that each number
/// of the range is as likely as any other is what `rand` documents, and
/// nothing that is proved here rests on it.
///
/// The generator of `rand::thread_rng` takes its seed from the operating
/// system, when a thread first asks for it and again after it has given
/// out a certain amount of numbers. `rand` panics where the system's source
/// fails, at the first seed as at a later one. No argument of this function
/// has a part in that.
#[verifier::external_body]
pub(crate) fn draw_below(bound: u128) -> (r: u128)
    requires
        bound > 0,
    ensures
        r < bound,
{
    rand::thread_rng().gen_range(0..bound)
}

} // verus!
