//! The injected random source.

use rand::rngs::StdRng;
use vstd::prelude::*;

verus! {

/// The generator of `rand` that callers seed and hand in.
#[verifier::external_type_specification]
#[verifier::external_body]
pub struct ExStdRng(StdRng);

/// `Rng::gen_range` of `rand` on an inclusive range of integers. Believed of
/// it: the draw lies within the range. The range must not be empty, or the
/// call panics.
#[verifier::external_body]
pub(crate) fn draw_between(rng: &mut StdRng, low: i64, high: i64) -> (draw: i64)
    requires
        low <= high,
    ensures
        low <= draw <= high,
{
    rand::Rng::gen_range(rng, low..=high)
}

} // verus!
