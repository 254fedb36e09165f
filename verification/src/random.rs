//! The pseudorandom source of the engine: the seedable generator of the
//! `rand` crate, of which only the range of a draw is assumed.

use rand::Rng;
use vstd::prelude::*;

verus! {

/// `StdRng` of the `rand` crate: a seedable generator, carried through as a
/// value of which nothing is known.
#[verifier::external_type_specification]
#[verifier::external_body]
pub struct ExStdRng(rand::rngs::StdRng);

/// Draws an index from `low..high` with `Rng::gen_range` of the `rand` crate.
///
/// Assumed, not proved: the draw lies in the half-open range. The range must
/// not be empty, since `gen_range` panics on an empty one. Nothing is assumed
/// about which index comes back, nor about the generator afterwards.
#[verifier::external_body]
pub(crate) fn draw_index(rng: &mut rand::rngs::StdRng, low: usize, high: usize) -> (drawn: usize)
    requires
        low < high,
    ensures
        low <= drawn < high,
{
    rng.gen_range(low..high)
}

} // verus!
