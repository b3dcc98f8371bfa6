//! The simulation's source of randomness: the thread-local generator of the
//! `rand` crate. Nothing proved elsewhere depends on which values are drawn.

use rand::Rng;
use vstd::prelude::*;

verus! {

/// Calls `rand::Rng::gen::<bool>` on `rand::thread_rng()`. The outcome is
/// left open: callers are verified for either value.
#[verifier::external_body]
pub(crate) fn coin_flip() -> (heads: bool) {
    rand::thread_rng().gen::<bool>()
}

/// Calls `rand::Rng::gen_range` on `rand::thread_rng()` with the half-open
/// range `0..bound`. The range must not be empty, as `gen_range` panics on an
/// empty one; the value drawn lies inside it.
#[verifier::external_body]
pub(crate) fn uniform_below(bound: u64) -> (drawn: u64)
    requires
        bound > 0,
    ensures
        drawn < bound,
{
    rand::thread_rng().gen_range(0..bound)
}

} // verus!
