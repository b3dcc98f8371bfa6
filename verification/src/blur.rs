//! The box blur behind diffusion, as sums over a toroidal neighbourhood.

use crate::util::{lemma_cell_in_range, lemma_cell_join, lemma_floor_div_bound};
use crate::util::{lemma_floor_div_range, lemma_wrap_range};
use crate::util::{spec_cell, spec_scale, spec_wrap, UNIT};
use vstd::arithmetic::div_mod::*;
use vstd::prelude::*;

verus! {

/// The sum of the first `count` cells of the window of radius `radius` around
/// column `column` in row `row`, from its left end. Columns wrap.
pub open spec fn row_sum(
    field: Seq<int>,
    width: int,
    column: int,
    row: int,
    radius: int,
    count: int,
) -> int
    decreases count,
{
    if count <= 0 {
        0
    } else {
        row_sum(field, width, column, row, radius, count - 1) + field[spec_cell(
            spec_wrap(column - radius + count - 1, width),
            row,
            width,
        )]
    }
}

/// The sum of the first `count` rows of the square window of radius `radius`
/// around a cell, from its top row, each row summed over its whole width of
/// `2 * radius + 1` cells. Rows wrap.
pub open spec fn box_sum(
    field: Seq<int>,
    width: int,
    height: int,
    column: int,
    row: int,
    radius: int,
    count: int,
) -> int
    decreases count,
{
    if count <= 0 {
        0
    } else {
        box_sum(field, width, height, column, row, radius, count - 1) + row_sum(
            field,
            width,
            column,
            spec_wrap(row - radius + count - 1, height),
            radius,
            2 * radius + 1,
        )
    }
}

/// The mean of the square window of radius `radius` around a cell, rounded
/// down. The cell itself is part of the window.
pub open spec fn spec_blurred(
    field: Seq<int>,
    width: int,
    height: int,
    column: int,
    row: int,
    radius: int,
) -> int {
    box_sum(field, width, height, column, row, radius, 2 * radius + 1) / ((2 * radius + 1) * (2
        * radius + 1))
}

/// What diffusion leaves in a cell: the mean of its neighbourhood, of which
/// the share `decay / UNIT` survives.
pub open spec fn spec_diffused_cell(
    field: Seq<int>,
    width: int,
    height: int,
    cell: int,
    radius: int,
    decay: int,
) -> int {
    spec_scale(spec_blurred(field, width, height, cell % width, cell / width, radius), decay)
}

/// A field after one diffusion.
pub open spec fn spec_diffused(field: Seq<int>, width: int, height: int, radius: int, decay: int) -> Seq<
    int,
> {
    Seq::new(
        field.len(),
        |cell: int| spec_diffused_cell(field, width, height, cell, radius, decay),
    )
}

/// Whether every value of a field lies in `[0, bound]`.
pub open spec fn is_bounded(field: Seq<int>, bound: int) -> bool {
    forall|c: int| 0 <= c < field.len() ==> 0 <= #[trigger] field[c] <= bound
}

/// A sum of `count` values of a bounded field lies in `[0, count * bound]`.
pub proof fn lemma_row_sum_bound(
    field: Seq<int>,
    width: int,
    height: int,
    column: int,
    row: int,
    radius: int,
    count: int,
    bound: int,
)
    requires
        0 < width,
        0 <= row < height,
        field.len() == width * height,
        is_bounded(field, bound),
        0 <= count,
    ensures
        0 <= row_sum(field, width, column, row, radius, count) <= count * bound,
    decreases count,
{
    if count > 0 {
        lemma_row_sum_bound(field, width, height, column, row, radius, count - 1, bound);
        let at = spec_wrap(column - radius + count - 1, width);
        lemma_wrap_range(column - radius + count - 1, width);
        lemma_cell_in_range(at, row, width, height);
        assert((count - 1) * bound + bound == count * bound) by (nonlinear_arith);
    }
}

/// A sum of `count` rows of a window lies in `[0, count * side * bound]`,
/// where `side` is the number of cells in a row of the window.
pub proof fn lemma_box_sum_bound(
    field: Seq<int>,
    width: int,
    height: int,
    column: int,
    row: int,
    radius: int,
    count: int,
    bound: int,
)
    requires
        0 < width,
        0 < height,
        field.len() == width * height,
        is_bounded(field, bound),
        0 <= radius,
        0 <= count,
    ensures
        0 <= box_sum(field, width, height, column, row, radius, count) <= count * ((2 * radius
            + 1) * bound),
    decreases count,
{
    if count > 0 {
        lemma_box_sum_bound(field, width, height, column, row, radius, count - 1, bound);
        let at = spec_wrap(row - radius + count - 1, height);
        lemma_wrap_range(row - radius + count - 1, height);
        lemma_row_sum_bound(field, width, height, column, at, radius, 2 * radius + 1, bound);
        let side = (2 * radius + 1) * bound;
        assert((count - 1) * side + side == count * side) by (nonlinear_arith);
    }
}

/// The mean of a window over a bounded field lies in `[0, bound]`.
pub proof fn lemma_mean_bound(
    field: Seq<int>,
    width: int,
    height: int,
    column: int,
    row: int,
    radius: int,
    bound: int,
)
    requires
        0 < width,
        0 < height,
        field.len() == width * height,
        is_bounded(field, bound),
        0 <= radius,
        0 <= bound,
    ensures
        0 <= spec_blurred(field, width, height, column, row, radius) <= bound,
{
    let side = 2 * radius + 1;
    let total = box_sum(field, width, height, column, row, radius, side);
    lemma_box_sum_bound(field, width, height, column, row, radius, side, bound);
    assert(side * (side * bound) == bound * (side * side)) by (nonlinear_arith);
    assert(0 < side * side) by (nonlinear_arith)
        requires
            0 < side,
    ;
    assert(0 <= bound * (side * side)) by (nonlinear_arith)
        requires
            0 <= bound,
            0 < side * side,
    ;
    lemma_floor_div_bound(total, side * side, bound);
    lemma_floor_div_range(total, side * side);
}

/// With radius zero nothing blurs: diffusion only lets every cell decay.
pub proof fn lemma_diffuse_without_blur(field: Seq<int>, width: int, height: int, decay: int, cell: int)
    requires
        0 < width,
        0 < height,
        field.len() == width * height,
        0 <= cell < field.len(),
    ensures
        spec_diffused(field, width, height, 0, decay)[cell] == spec_scale(field[cell], decay),
{
    lemma_cell_join(cell, width, height);
    let column = cell % width;
    let row = cell / width;
    lemma_wrap_range(column, width);
    lemma_wrap_range(row, height);
    assert(row_sum(field, width, column, row, 0, 0) == 0);
    assert(row_sum(field, width, column, row, 0, 1) == field[cell]);
    assert(box_sum(field, width, height, column, row, 0, 0) == 0);
    assert(box_sum(field, width, height, column, row, 0, 1) == field[cell]);
    let radius = 0int;
    assert((2 * radius + 1) * (2 * radius + 1) == 1) by (nonlinear_arith)
        requires
            radius == 0,
    ;
    assert(spec_blurred(field, width, height, column, row, radius) == field[cell] / 1);
}

/// With radius zero and nothing decaying, diffusion leaves the field as it is.
pub proof fn lemma_diffuse_identity(field: Seq<int>, width: int, height: int)
    requires
        0 < width,
        0 < height,
        field.len() == width * height,
    ensures
        spec_diffused(field, width, height, 0, UNIT as int) == field,
{
    let after = spec_diffused(field, width, height, 0, UNIT as int);
    assert forall|cell: int| 0 <= cell < field.len() implies after[cell] == field[cell] by {
        lemma_diffuse_without_blur(field, width, height, UNIT as int, cell);
        assert(field[cell] * UNIT == UNIT * field[cell]) by (nonlinear_arith);
        lemma_div_multiples_vanish(field[cell], UNIT as int);
    }
    assert(after =~= field);
}

} // verus!
