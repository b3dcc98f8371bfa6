//! The steering rule: which way an agent turns, given what its three sensors
//! read.

use crate::random::coin_flip;
use vstd::prelude::*;

verus! {

/// Whether both side sensors read more than the centre one: the one case in
/// which the rule leaves the turn to chance.
pub open spec fn is_undecided(center: int, left: int, right: int) -> bool {
    center < left && center < right
}

/// The steering decision: `0` keeps the heading, `1` turns toward the right
/// sensor, `-1` toward the left one. `tie_break` settles the undecided case:
/// `true` turns right, `false` left.
pub open spec fn spec_pick_direction(center: int, left: int, right: int, tie_break: bool) -> int {
    if center > left && center > right {
        0
    } else if center < left && center < right {
        if tie_break {
            1
        } else {
            -1
        }
    } else if left < right {
        1
    } else if right < left {
        -1
    } else {
        0
    }
}

/// The decision never leaves `{-1, 0, 1}`, is `-1` or `1` when the sensors
/// leave it undecided, and otherwise does not depend on the tie-break.
pub proof fn lemma_direction_cases(center: int, left: int, right: int, tie_break: bool)
    ensures
        -1 <= spec_pick_direction(center, left, right, tie_break) <= 1,
        is_undecided(center, left, right) ==> spec_pick_direction(center, left, right, tie_break)
            != 0,
        !is_undecided(center, left, right) ==> spec_pick_direction(
            center,
            left,
            right,
            tie_break,
        ) == spec_pick_direction(center, left, right, !tie_break),
{
}

/// Applies the steering rule to three sensor readings, with the tie-break
/// supplied by the caller.
pub fn pick_direction(center: i128, left: i128, right: i128, tie_break: bool) -> (direction: i8)
    ensures
        direction == spec_pick_direction(center as int, left as int, right as int, tie_break),
{
    if center > left && center > right {
        0
    } else if center < left && center < right {
        if tie_break {
            1
        } else {
            -1
        }
    } else if left < right {
        1
    } else if right < left {
        -1
    } else {
        0
    }
}

/// Applies the steering rule, flipping a coin when the sensors leave the turn
/// undecided. Whatever the coin shows, the result is the rule's answer for one
/// of the two tie-breaks.
pub fn choose_direction(center: i128, left: i128, right: i128) -> (direction: i8)
    ensures
        direction == spec_pick_direction(center as int, left as int, right as int, true)
            || direction == spec_pick_direction(center as int, left as int, right as int, false),
        !is_undecided(center as int, left as int, right as int) ==> direction
            == spec_pick_direction(center as int, left as int, right as int, true),
{
    if center < left && center < right {
        let heads = coin_flip();
        pick_direction(center, left, right, heads)
    } else {
        pick_direction(center, left, right, true)
    }
}

} // verus!
