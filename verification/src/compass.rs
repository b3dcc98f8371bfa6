//! Headings and their unit vectors.
//!
//! A full turn is divided into equal steps; a heading is the index of one.
//! The compass holds, for every heading, the fixed-point cosine and sine of
//! its angle, so that moving along a heading is integer arithmetic.

use crate::util::{wrap, UNIT};
use crate::util::spec_wrap;
use vstd::prelude::*;

verus! {

/// The unit vectors of the headings of one full turn.
#[derive(Debug)]
pub struct Compass {
    directions: Vec<(i64, i64)>,
}

/// Whether neither component of a direction exceeds `UNIT` in magnitude.
pub open spec fn is_direction(d: (int, int)) -> bool {
    -(UNIT as int) <= d.0 <= UNIT as int && -(UNIT as int) <= d.1 <= UNIT as int
}

/// Whether a table can serve as a compass: it has at least one heading and
/// holds only directions.
pub open spec fn is_compass_table(table: Seq<(int, int)>) -> bool {
    &&& table.len() > 0
    &&& forall|k: int| 0 <= k < table.len() ==> is_direction(#[trigger] table[k])
}

/// A table of pairs of machine integers, read as mathematical integers.
pub open spec fn table_of(directions: Seq<(i64, i64)>) -> Seq<(int, int)> {
    directions.map_values(|d: (i64, i64)| (d.0 as int, d.1 as int))
}

/// The heading reached from `heading` by `steps` further steps, which may be
/// negative, on a compass of `turn` headings.
pub open spec fn spec_rotate(heading: int, steps: int, turn: int) -> int {
    spec_wrap(heading + steps, turn)
}

impl View for Compass {
    type V = Seq<(int, int)>;

    closed spec fn view(&self) -> Seq<(int, int)> {
        table_of(self.directions@)
    }
}

impl Compass {
    /// The invariant of a compass: its table is a compass table.
    pub open spec fn wf(&self) -> bool {
        is_compass_table(self@)
    }

    /// Builds a compass from the `(cosine, sine)` pairs of its headings, in
    /// order of increasing angle. Refuses an empty table and one with a
    /// component beyond `UNIT`.
    pub fn new(directions: Vec<(i64, i64)>) -> (made: Option<Compass>)
        ensures
            made is Some <==> is_compass_table(table_of(directions@)),
            made matches Some(compass) ==> compass.wf() && compass@ == table_of(directions@),
    {
        if directions.len() == 0 {
            return None;
        }
        let mut k: usize = 0;
        while k < directions.len()
            invariant
                k <= directions.len(),
                forall|j: int| 0 <= j < k ==> is_direction(#[trigger] table_of(directions@)[j]),
            decreases directions.len() - k,
        {
            let d = directions[k];
            if d.0 < -UNIT || d.0 > UNIT || d.1 < -UNIT || d.1 > UNIT {
                assert(!is_direction(table_of(directions@)[k as int]));
                return None;
            }
            k += 1;
        }
        Some(Compass { directions })
    }

    /// The number of headings in a full turn.
    pub fn turn(&self) -> (count: usize)
        ensures
            count == self@.len(),
    {
        self.directions.len()
    }

    /// The `(cosine, sine)` pair of a heading.
    pub fn direction(&self, heading: usize) -> (d: (i64, i64))
        requires
            heading < self@.len(),
        ensures
            (d.0 as int, d.1 as int) == self@[heading as int],
    {
        self.directions[heading]
    }

    /// The heading `steps` steps further round from `heading`. Negative steps
    /// turn the other way; the result is wrapped into the turn.
    pub fn rotate(&self, heading: usize, steps: i128) -> (turned: usize)
        requires
            self.wf(),
            -0x2000_0000_0000_0000_0000_0000_0000_0000 <= steps
                <= 0x2000_0000_0000_0000_0000_0000_0000_0000,
        ensures
            turned == spec_rotate(heading as int, steps as int, self@.len() as int),
            turned < self@.len(),
    {
        let turn = self.directions.len() as i128;
        let wrapped = wrap(heading as i128 + steps, turn);
        wrapped as usize
    }
}

} // verus!
