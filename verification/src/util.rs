//! Fixed-point arithmetic and toroidal wrapping.
//!
//! Every continuous quantity of the simulation (a coordinate, a distance, a
//! trail intensity, a coupling weight) is an integer count of `1 / UNIT`.

use vstd::prelude::*;
use vstd::arithmetic::div_mod::*;

verus! {

/// The fixed-point representation of `1`: sixteen fractional bits.
pub const UNIT: i64 = 65536;

/// `value` reduced into `[0, modulus)`: where a coordinate or a heading
/// re-enters the torus.
pub open spec fn spec_wrap(value: int, modulus: int) -> int {
    value % modulus
}

/// The fixed-point product of two fixed-point numbers, rounded down.
pub open spec fn spec_scale(a: int, b: int) -> int {
    (a * b) / (UNIT as int)
}

/// The row-major index of the cell in column `column` of row `row`.
pub open spec fn spec_cell(column: int, row: int, width: int) -> int {
    row * width + column
}

/// A cell of a grid has an index below the number of cells.
pub proof fn lemma_cell_in_range(column: int, row: int, width: int, height: int)
    by (nonlinear_arith)
    requires
        0 <= column < width,
        0 <= row < height,
    ensures
        0 <= spec_cell(column, row, width) < width * height,
        0 <= row * width <= spec_cell(column, row, width),
{
}

/// A cell's index splits back into its column and its row.
pub proof fn lemma_cell_split(column: int, row: int, width: int)
    requires
        0 <= column < width,
    ensures
        spec_cell(column, row, width) % width == column,
        spec_cell(column, row, width) / width == row,
{
    lemma_fundamental_div_mod_converse(spec_cell(column, row, width), width, row, column);
}

/// An index below the number of cells names a column and a row of the grid.
pub proof fn lemma_cell_join(cell: int, width: int, height: int)
    requires
        0 < width,
        0 <= cell < width * height,
    ensures
        0 <= cell % width < width,
        0 <= cell / width < height,
        spec_cell(cell % width, cell / width, width) == cell,
{
    lemma_fundamental_div_mod(cell, width);
    lemma_mod_bound(cell, width);
    let q = cell / width;
    let r = cell % width;
    assert(width * q == q * width) by (nonlinear_arith);
    assert(0 <= q < height) by (nonlinear_arith)
        requires
            cell == width * q + r,
            0 <= r < width,
            0 <= cell < width * height,
    ;
}

/// One step further round the torus: the wrapped value goes up by one, or
/// back to zero from the last place.
pub proof fn lemma_wrap_step(value: int, modulus: int)
    requires
        modulus > 0,
    ensures
        spec_wrap(value + 1, modulus) == (if spec_wrap(value, modulus) + 1 == modulus {
            0
        } else {
            spec_wrap(value, modulus) + 1
        }),
        spec_wrap(spec_wrap(value, modulus) + 1, modulus) == spec_wrap(value + 1, modulus),
{
    lemma_fundamental_div_mod(value, modulus);
    lemma_mod_bound(value, modulus);
    let q = value / modulus;
    let r = value % modulus;
    assert(modulus * q == q * modulus) by (nonlinear_arith);
    if r + 1 == modulus {
        assert((q + 1) * modulus + 0 == value + 1) by (nonlinear_arith)
            requires
                value == q * modulus + r,
                r + 1 == modulus,
        ;
        lemma_fundamental_div_mod_converse(value + 1, modulus, q + 1, 0);
        lemma_mod_self_0(modulus);
    } else {
        lemma_fundamental_div_mod_converse(value + 1, modulus, q, r + 1);
        lemma_small_mod((r + 1) as nat, modulus as nat);
    }
}

/// A wrapped value lies in `[0, modulus)`, and a value already there stays.
pub proof fn lemma_wrap_range(value: int, modulus: int)
    requires
        modulus > 0,
    ensures
        0 <= spec_wrap(value, modulus) < modulus,
        0 <= value < modulus ==> spec_wrap(value, modulus) == value,
{
    lemma_mod_bound(value, modulus);
    if 0 <= value < modulus {
        lemma_small_mod(value as nat, modulus as nat);
    }
}

/// Wrapping is idempotent, and values a whole number of turns apart wrap alike.
pub proof fn lemma_wrap_periodic(value: int, turns: int, modulus: int)
    requires
        modulus > 0,
    ensures
        spec_wrap(value + turns * modulus, modulus) == spec_wrap(value, modulus),
        spec_wrap(spec_wrap(value, modulus), modulus) == spec_wrap(value, modulus),
{
    lemma_mod_multiples_vanish(turns, value, modulus);
    assert(modulus * turns + value == value + turns * modulus) by (nonlinear_arith);
    lemma_mod_twice(value, modulus);
}

/// The product of two 64-bit integers lies well inside the 128-bit range.
pub proof fn lemma_product_fits(a: int, b: int)
    requires
        -0x8000_0000_0000_0000 <= a <= 0x8000_0000_0000_0000,
        -0x8000_0000_0000_0000 <= b <= 0x8000_0000_0000_0000,
    ensures
        -0x4000_0000_0000_0000_0000_0000_0000_0000 <= a * b
            <= 0x4000_0000_0000_0000_0000_0000_0000_0000,
{
    lemma_product_bound(a, b, 0x8000_0000_0000_0000, 0x8000_0000_0000_0000);
}

/// `|a| <= p` and `|b| <= q` bound the product: `|a * b| <= p * q`.
pub proof fn lemma_product_bound(a: int, b: int, p: int, q: int)
    by (nonlinear_arith)
    requires
        -p <= a <= p,
        -q <= b <= q,
    ensures
        -(p * q) <= a * b <= p * q,
{
}

/// Division rounding down keeps a bound that is a multiple of the divisor.
pub proof fn lemma_floor_div_bound(a: int, d: int, bound: int)
    requires
        d > 0,
        -(bound * d) <= a <= bound * d,
    ensures
        -bound <= a / d <= bound,
{
    assert(bound * d == d * bound && -(bound * d) == d * (-bound)) by (nonlinear_arith);
    lemma_div_is_ordered(a, d * bound, d);
    lemma_div_is_ordered(d * (-bound), a, d);
    lemma_div_multiples_vanish(bound, d);
    lemma_div_multiples_vanish(-bound, d);
}

/// `value` reduced into `[0, modulus)`.
pub fn wrap(value: i128, modulus: i128) -> (wrapped: i128)
    requires
        modulus > 0,
    ensures
        wrapped == spec_wrap(value as int, modulus as int),
        0 <= wrapped < modulus,
{
    proof {
        lemma_mod_bound(value as int, modulus as int);
    }
    value.checked_rem_euclid(modulus).unwrap()
}

/// `value / divisor`, rounded toward negative infinity.
pub fn floor_div(value: i128, divisor: i128) -> (quotient: i128)
    requires
        divisor > 0,
    ensures
        quotient == (value as int) / (divisor as int),
{
    proof {
        lemma_floor_div_range(value as int, divisor as int);
    }
    value.checked_div_euclid(divisor).unwrap()
}

/// Dividing by a positive number never moves a value away from zero by more
/// than rounding down does.
pub proof fn lemma_floor_div_range(value: int, divisor: int)
    requires
        divisor > 0,
    ensures
        value >= 0 ==> 0 <= value / divisor <= value,
        value < 0 ==> value <= value / divisor < 0,
{
    lemma_fundamental_div_mod(value, divisor);
    lemma_mod_bound(value, divisor);
    let q = value / divisor;
    let r = value % divisor;
    assert(value == divisor * q + r);
    if value >= 0 {
        assert(q >= 0 && q <= value) by (nonlinear_arith)
            requires
                value == divisor * q + r,
                0 <= r < divisor,
                value >= 0,
                divisor > 0,
        ;
    } else {
        assert(q < 0 && value <= q) by (nonlinear_arith)
            requires
                value == divisor * q + r,
                0 <= r < divisor,
                value < 0,
                divisor > 0,
        ;
    }
}

/// The fixed-point product `a * b / UNIT`, rounded down.
pub fn scale(a: i64, b: i64) -> (product: i128)
    ensures
        product == spec_scale(a as int, b as int),
{
    proof {
        lemma_product_fits(a as int, b as int);
    }
    let wide: i128 = (a as i128) * (b as i128);
    floor_div(wide, UNIT as i128)
}

} // verus!
