use vstd::prelude::*;
use rand::Rng;

verus! {

/// Draws a number uniformly from `lo..=hi` with `rand::Rng::gen_range` on the
/// thread-local generator of `rand::thread_rng`.
/// Claimed of it: the result lies in the inclusive range. The range must not be
/// empty, since `gen_range` panics on an empty range. Which value comes out is
/// left open: it rests on chance.
#[verifier::external_body]
pub(crate) fn random_in_range(lo: usize, hi: usize) -> (r: usize)
    requires
        lo <= hi,
    ensures
        lo <= r <= hi,
{
    rand::thread_rng().gen_range(lo..=hi)
}

} // verus!
