//! Random draws, taken from `rand`'s thread-local generator.

use rand::Rng;
use vstd::prelude::*;

verus! {

#[verifier::external_type_specification]
#[verifier::external_body]
pub struct ExThreadRng(rand::rngs::ThreadRng);

/// Relies on `rand::Rng::gen_range` over a half-open range: the value drawn
/// lies in `lo..hi`; the call panics on an empty range, which `requires` rules out.
#[verifier::external_body]
pub(crate) fn draw_in(rng: &mut rand::rngs::ThreadRng, lo: i32, hi: i32) -> (r: i32)
    requires
        lo < hi,
    ensures
        lo <= r < hi,
{
    rng.gen_range(lo..hi)
}

/// Relies on `rand::Rng::gen_ratio(1, 2)`: a fair coin; nothing is promised of
/// the outcome.
#[verifier::external_body]
pub(crate) fn flip_coin(rng: &mut rand::rngs::ThreadRng) -> (r: bool) {
    rng.gen_ratio(1, 2)
}

} // verus!
