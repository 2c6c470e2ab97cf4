//! The engine's only source of randomness: the thread-local generator of the
//! `rand` crate, behind trusted wrappers.  Everything the engine concludes
//! from a drawn value rests on the ranges stated here; the drawn value itself
//! is treated as arbitrary within them.

use vstd::prelude::*;
use crate::grid::Coord;
use crate::grid::SPICEFIELD_SIZE_X;
use crate::grid::SPICEFIELD_SIZE_Y;
use crate::grid::in_spawn_grid;
use rand::Rng;

verus! {

#[verifier::external_type_specification]
#[verifier::external_body]
pub struct ExThreadRng(rand::rngs::ThreadRng);

/// Relies on rand::thread_rng: returns a handle to the thread-local
/// generator.  Nothing is claimed of the values it will produce.
#[verifier::external_body]
pub(crate) fn fresh_rng() -> rand::rngs::ThreadRng {
    rand::thread_rng()
}

/// Relies on rand::Rng::gen_range over `0..n`: the result is drawn from
/// `[0, n)`, and the call panics only on an empty range, which the
/// precondition rules out.  Two calls on equal arguments may differ.
#[verifier::external_body]
pub(crate) fn gen_below(rng: &mut rand::rngs::ThreadRng, n: i32) -> (r: i32)
    requires
        n > 0,
    ensures
        0 <= r < n,
{
    rng.gen_range(0..n)
}

/// Draws one cell uniformly from the spawn grid, by one draw per axis.
pub(crate) fn random_cell(rng: &mut rand::rngs::ThreadRng) -> (c: Coord)
    ensures
        in_spawn_grid(c),
{
    let x = gen_below(rng, SPICEFIELD_SIZE_X);
    let y = gen_below(rng, SPICEFIELD_SIZE_Y);
    Coord { x, y }
}

} // verus!
