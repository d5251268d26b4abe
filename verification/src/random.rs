//! The one source of chance: uniform draws from the thread-local generator.

use rand::Rng;
use vstd::prelude::*;

verus! {

/// Draws an index below `high` with `rand::Rng::gen_range(0, high)` on
/// `rand::thread_rng()`. Nothing is proved of it: the contract claims only what
/// the sampler shows of every draw, that it lies in the half-open range, and
/// leaves out the empty range, on which the sampler panics. The generator
/// itself gives up only where the operating system has no entropy for its
/// seed.
#[verifier::external_body]
pub(crate) fn draw_below(high: usize) -> (drawn: usize)
    requires
        0 < high,
    ensures
        drawn < high,
{
    rand::thread_rng().gen_range(0, high)
}

} // verus!
