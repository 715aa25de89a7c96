//! What the library draws from a random number generator.

use rand::rngs::SmallRng;
use rand::seq::SliceRandom;
use rand::Rng;
use vstd::prelude::*;

verus! {

/// `rand::rngs::SmallRng`, the generator that the library draws from. The
/// library does not look inside it.
#[verifier::external_type_specification]
#[verifier::external_body]
pub struct ExSmallRng(SmallRng);

/// `rand::Rng::gen_range` on the range `0..3`: one of the three axes, drawn
/// from the generator. Which one is not foretold; the generator advances.
#[verifier::external_body]
pub(crate) fn draw_axis(rng: &mut SmallRng) -> (axis: usize)
    ensures
        axis < 3,
{
    rng.gen_range(0..3)
}

/// `rand::seq::SliceRandom::shuffle`: rearranges the table in place by
/// swapping entries at places drawn from the generator. What the table holds
/// stays; in which order is not foretold.
#[verifier::external_body]
pub(crate) fn shuffle(table: &mut Vec<usize>, rng: &mut SmallRng)
    ensures
        final(table)@.len() == old(table)@.len(),
        final(table)@.to_multiset() == old(table)@.to_multiset(),
{
    table.shuffle(rng);
}

} // verus!
