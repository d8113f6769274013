use vstd::prelude::*;
use rand::Rng;

verus! {

/// A uniformly drawn number in `0..bound`, from the thread-local generator
/// of `rand` (`rand::thread_rng().gen_range(0..bound)`). Only the range is
/// stated: which number comes out is chance.
#[verifier::external_body]
pub(crate) fn roll_below(bound: u32) -> (r: u32)
    requires
        bound > 0,
    ensures
        r < bound,
{
    rand::thread_rng().gen_range(0..bound)
}

} // verus!
