//! The integer draws the world takes from its seeded generator.

use vstd::prelude::*;
use rand::rngs::StdRng;
use rand::Rng;
use rand::SeedableRng;
use rand::seq::IndexedRandom;
use crate::world::Position;

verus! {

#[verifier::external_type_specification]
#[verifier::external_body]
pub struct ExStdRng(rand::rngs::StdRng);

/// `StdRng::clone`: the copy is a generator in the state of the one it was
/// taken from.
pub assume_specification[ <StdRng as Clone>::clone ](rng: &StdRng) -> (copy: StdRng)
    ensures
        copy == *rng,
;

/// `StdRng::seed_from_u64`: a generator whose stream is fixed by the seed.
/// Nothing is claimed of the generator's state.
#[verifier::external_body]
pub(crate) fn seeded(seed: u64) -> (rng: StdRng)
{
    StdRng::seed_from_u64(seed)
}

/// `Rng::random_range` on the half-open range `0..bound` of `usize`: the
/// draw lies in the range. An empty range would panic, so it is excluded.
#[verifier::external_body]
pub(crate) fn draw_below(rng: &mut StdRng, bound: usize) -> (n: usize)
    requires
        bound > 0,
    ensures
        n < bound,
{
    rng.random_range(0..bound)
}

/// `Rng::random_range` on the half-open range `low..high` of `u32`: the
/// draw lies in the range. An empty range would panic, so it is excluded.
#[verifier::external_body]
pub(crate) fn draw_span(rng: &mut StdRng, low: u32, high: u32) -> (n: u32)
    requires
        low < high,
    ensures
        low <= n < high,
{
    rng.random_range(low..high)
}

/// `Rng::random_range` on the closed range `low..=high` of `i32`: the draw
/// lies in the range. An empty range would panic, so it is excluded.
#[verifier::external_body]
pub(crate) fn draw_closed(rng: &mut StdRng, low: i32, high: i32) -> (d: i32)
    requires
        low <= high,
    ensures
        low <= d <= high,
{
    rng.random_range(low..=high)
}

/// `IndexedRandom::choose` on a slice of positions: `None` exactly for an
/// empty slice, otherwise one of its elements.
#[verifier::external_body]
pub(crate) fn choose_spot(spots: &Vec<Position>, rng: &mut StdRng) -> (pick: Option<Position>)
    ensures
        pick.is_none() <==> spots@.len() == 0,
        pick.is_some() ==> exists|i: int| 0 <= i < spots@.len() && spots@[i] == pick.unwrap(),
{
    spots.as_slice().choose(rng).copied()
}

} // verus!
