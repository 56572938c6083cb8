//! Random choices, from the `rand` crate's thread-local generator. Of each
//! outcome only what holds for every draw is stated.
use vstd::prelude::*;
use crate::text::strs;
use rand::seq::SliceRandom;
use rand::Rng;

verus! {

/// rand's `Rng::gen_range` on the thread generator: a number drawn from
/// `lo..hi`. Claimed: `lo <= r < hi` (the range must not be empty, or
/// `gen_range` panics).
#[verifier::external_body]
pub(crate) fn random_range(lo: usize, hi: usize) -> (r: usize)
    requires
        lo < hi,
    ensures
        lo <= r < hi,
{
    rand::thread_rng().gen_range(lo..hi)
}

/// rand's `SliceRandom::shuffle` on the thread generator. Claimed: the
/// strings afterwards are the same ones, each as often as before, in some
/// order.
#[verifier::external_body]
pub(crate) fn shuffle(v: &mut Vec<String>)
    ensures
        strs(final(v)@).to_multiset() == strs(old(v)@).to_multiset(),
{
    v.shuffle(&mut rand::thread_rng());
}

/// rand's `SliceRandom::choose` on the thread generator, the chosen string
/// copied out. Claimed: `None` exactly for an empty list; otherwise one of
/// the list's strings.
#[verifier::external_body]
pub(crate) fn pick_one(v: &Vec<String>) -> (r: Option<String>)
    ensures
        r is None <==> v.len() == 0,
        r matches Some(s) ==> strs(v@).contains(s@),
{
    v.choose(&mut rand::thread_rng()).cloned()
}

} // verus!
