use vstd::prelude::*;
use rand::Rng;

verus! {

/// Relies on rand::thread_rng and rand::Rng::gen_range on `0..bound`:
/// a uniform draw strictly below `bound`. gen_range panics on an empty
/// range, so the bound must be positive.
#[verifier::external_body]
pub(crate) fn random_below(bound: u32) -> (r: u32)
    requires
        0 < bound,
    ensures
        r < bound,
{
    rand::thread_rng().gen_range(0..bound)
}

/// Relies on rand::thread_rng and rand::Rng::gen_ratio: returns true with
/// probability `num / den`. Nothing can be promised of a single draw.
/// gen_ratio panics when `den == 0` or `num > den`, so those are excluded.
#[verifier::external_body]
pub(crate) fn random_ratio(num: u32, den: u32) -> (r: bool)
    requires
        0 < den,
        num <= den,
{
    rand::thread_rng().gen_ratio(num, den)
}

} // verus!
