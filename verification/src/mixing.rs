//! The coupling of the populations: each population senses a weighted sum of
//! every population's trail.

use crate::blur::is_bounded;
use crate::config::{SENSE_MAX, TRAIL_MAX, WEIGHT_MAX};
use crate::util::{lemma_floor_div_bound, lemma_product_bound, UNIT};
use vstd::arithmetic::div_mod::*;
use vstd::prelude::*;

verus! {

/// Whether `weights` holds one attraction weight for each of `count`
/// populations, none beyond `WEIGHT_MAX` in magnitude.
pub open spec fn is_weight_row(weights: Seq<int>, count: int) -> bool {
    &&& weights.len() == count
    &&& forall|j: int|
        0 <= j < weights.len() ==> -(WEIGHT_MAX as int) <= #[trigger] weights[j] <= WEIGHT_MAX as int
}

/// Whether `table` is a square attraction table for `count` populations.
pub open spec fn is_attraction_table(table: Seq<Seq<int>>, count: int) -> bool {
    &&& table.len() == count
    &&& forall|i: int| 0 <= i < table.len() ==> is_weight_row(#[trigger] table[i], count)
}

/// Whether `fields` holds trail fields of `cells` cells each.
pub open spec fn is_field_set(fields: Seq<Seq<int>>, cells: int) -> bool {
    forall|j: int|
        0 <= j < fields.len() ==> (#[trigger] fields[j]).len() == cells && is_bounded(
            fields[j],
            TRAIL_MAX as int,
        )
}

/// The row of the identity table for population `own`: `UNIT` for itself and
/// zero for every other population.
pub open spec fn identity_row(own: int, count: int) -> Seq<int> {
    Seq::new(
        count as nat,
        |j: int|
            if j == own {
                UNIT as int
            } else {
                0int
            },
    )
}

/// The identity table for `count` populations: every population is drawn to
/// its own trail with weight one and to no other.
pub open spec fn identity_table(count: int) -> Seq<Seq<int>> {
    Seq::new(count as nat, |own: int| identity_row(own, count))
}

/// The identity table is an attraction table.
pub proof fn lemma_identity_is_table(count: int)
    requires
        0 <= count,
    ensures
        is_attraction_table(identity_table(count), count),
{
    let table = identity_table(count);
    assert forall|i: int| 0 <= i < table.len() implies is_weight_row(#[trigger] table[i], count) by {
        assert(table[i] == identity_row(i, count));
    }
}

/// The sum over the first `count` populations of weight times trail, at one
/// cell.
pub open spec fn weighted_sum(fields: Seq<Seq<int>>, weights: Seq<int>, cell: int, count: int) -> int
    decreases count,
{
    if count <= 0 {
        0
    } else {
        weighted_sum(fields, weights, cell, count - 1) + weights[count - 1] * fields[count
            - 1][cell]
    }
}

/// What a population senses at one cell: the weighted sum of all trails there,
/// as a fixed-point number rounded down.
pub open spec fn spec_combined_cell(fields: Seq<Seq<int>>, weights: Seq<int>, cell: int) -> int {
    weighted_sum(fields, weights, cell, fields.len() as int) / (UNIT as int)
}

/// What a population senses, cell by cell.
pub open spec fn spec_combined(fields: Seq<Seq<int>>, weights: Seq<int>, cells: int) -> Seq<int> {
    Seq::new(cells as nat, |cell: int| spec_combined_cell(fields, weights, cell))
}

/// A weighted sum over `count` populations is at most `count` times the
/// heaviest weight times the strongest trail, in magnitude.
pub proof fn lemma_weighted_sum_bound(
    fields: Seq<Seq<int>>,
    weights: Seq<int>,
    cells: int,
    cell: int,
    count: int,
)
    requires
        is_field_set(fields, cells),
        is_weight_row(weights, fields.len() as int),
        0 <= cell < cells,
        0 <= count <= fields.len(),
    ensures
        -(count * 0x1000_0000_0000_0000) <= weighted_sum(fields, weights, cell, count) <= count
            * 0x1000_0000_0000_0000,
    decreases count,
{
    if count > 0 {
        lemma_weighted_sum_bound(fields, weights, cells, cell, count - 1);
        let w = weights[count - 1];
        let v = fields[count - 1][cell];
        lemma_product_bound(w, v, WEIGHT_MAX as int, TRAIL_MAX as int);
        assert(WEIGHT_MAX * TRAIL_MAX == 0x1000_0000_0000_0000) by (nonlinear_arith)
            requires
                WEIGHT_MAX == 0x10_0000,
                TRAIL_MAX == 0x100_0000_0000,
        ;
    }
}

/// A sensed value never exceeds `SENSE_MAX` in magnitude, however many
/// populations there are in memory.
pub proof fn lemma_combined_bound(fields: Seq<Seq<int>>, weights: Seq<int>, cells: int, cell: int)
    requires
        is_field_set(fields, cells),
        is_weight_row(weights, fields.len() as int),
        0 <= cell < cells,
        fields.len() <= 0x1_0000_0000_0000_0000,
    ensures
        -(SENSE_MAX as int) <= spec_combined_cell(fields, weights, cell) <= SENSE_MAX as int,
{
    let count = fields.len() as int;
    lemma_weighted_sum_bound(fields, weights, cells, cell, count);
    assert(count * 0x1000_0000_0000_0000 <= SENSE_MAX * UNIT) by (nonlinear_arith)
        requires
            0 <= count <= 0x1_0000_0000_0000_0000,
            SENSE_MAX == 0x1000_0000_0000_0000_0000_0000_0000,
            UNIT == 0x1_0000,
    ;
    lemma_floor_div_bound(
        weighted_sum(fields, weights, cell, count),
        UNIT as int,
        SENSE_MAX as int,
    );
}

/// Under the identity row of a population, the weighted sum is that
/// population's trail, once it has been reached.
pub proof fn lemma_weighted_sum_identity(fields: Seq<Seq<int>>, own: int, cell: int, count: int)
    requires
        0 <= own < fields.len(),
        0 <= count <= fields.len(),
    ensures
        weighted_sum(fields, identity_row(own, fields.len() as int), cell, count) == (if own
            < count {
            UNIT * fields[own][cell]
        } else {
            0
        }),
    decreases count,
{
    if count > 0 {
        lemma_weighted_sum_identity(fields, own, cell, count - 1);
        let row = identity_row(own, fields.len() as int);
        let v = fields[count - 1][cell];
        if count - 1 == own {
            assert(row[count - 1] == UNIT);
        } else {
            assert(row[count - 1] == 0);
            assert(0 * v == 0) by (nonlinear_arith);
        }
    }
}

/// With the identity table, every population senses exactly its own trail.
pub proof fn lemma_combine_identity(fields: Seq<Seq<int>>, own: int, cells: int)
    requires
        0 <= own < fields.len(),
        0 <= cells,
        fields[own].len() == cells,
    ensures
        spec_combined(fields, identity_row(own, fields.len() as int), cells) == fields[own],
{
    let row = identity_row(own, fields.len() as int);
    let sensed = spec_combined(fields, row, cells);
    assert forall|cell: int| 0 <= cell < cells implies sensed[cell] == fields[own][cell] by {
        lemma_weighted_sum_identity(fields, own, cell, fields.len() as int);
        lemma_div_multiples_vanish(fields[own][cell], UNIT as int);
    }
    assert(sensed =~= fields[own]);
}

} // verus!
