//! The trail field of one population on a toroidal grid: sampling, deposition,
//! diffusion and the rank statistics used to normalise an image.

use crate::blur::{box_sum, is_bounded, row_sum, spec_diffused, spec_diffused_cell};
use crate::blur::{lemma_box_sum_bound, lemma_diffuse_identity, lemma_mean_bound};
use crate::config::{ConfigError, PopulationConfig};
use crate::config::{MAX_DIFFUSIVITY, MAX_SIDE, SENSE_MAX, TRAIL_MAX, WEIGHT_MAX};
use crate::mixing::{identity_table, is_attraction_table, is_field_set, is_weight_row};
use crate::mixing::{lemma_combine_identity, lemma_combined_bound, lemma_weighted_sum_bound};
use crate::mixing::{spec_combined, spec_combined_cell, weighted_sum};
use crate::random::uniform_below;
use crate::rank::{count_upto, is_maximum, is_minimum, is_ranked, ranked_value};
use crate::rank::{lemma_count_all, lemma_count_none, lemma_ranked_value};
use crate::rank::{lemma_first_rank_is_minimum, lemma_last_rank_is_maximum};
use crate::util::{floor_div, scale, wrap, UNIT};
use crate::util::{lemma_cell_in_range, lemma_cell_join, lemma_cell_split};
use crate::util::{lemma_floor_div_bound, lemma_floor_div_range, lemma_product_bound};
use crate::util::{lemma_wrap_range, lemma_wrap_step};
use crate::util::{spec_cell, spec_scale, spec_wrap};
use vstd::arithmetic::div_mod::*;
use vstd::prelude::*;

verus! {

/// A sequence of 64-bit values, read as mathematical integers.
pub open spec fn ints_of(values: Seq<i64>) -> Seq<int> {
    values.map_values(|v: i64| v as int)
}

/// A sequence of 128-bit values, read as mathematical integers.
pub open spec fn wide_ints_of(values: Seq<i128>) -> Seq<int> {
    values.map_values(|v: i128| v as int)
}

/// Whether every value of a field is a trail intensity.
pub open spec fn is_trail(field: Seq<int>) -> bool {
    is_bounded(field, TRAIL_MAX as int)
}

/// Whether every value of a buffer is within the range of a sensed value.
pub open spec fn is_sensed(buffer: Seq<int>) -> bool {
    forall|c: int|
        0 <= c < buffer.len() ==> -(SENSE_MAX as int) <= #[trigger] buffer[c] <= SENSE_MAX as int
}

/// Whether a grid of this width and height can be built.
pub open spec fn is_grid_size(width: int, height: int) -> bool {
    &&& 0 < width <= MAX_SIDE
    &&& 0 < height <= MAX_SIDE
    &&& width * height <= usize::MAX
}

/// The lattice point at or below a continuous coordinate, on a torus of
/// `side` cells.
pub open spec fn spec_whole(coordinate: int, side: int) -> int {
    spec_wrap(coordinate, side * UNIT) / (UNIT as int)
}

/// How far a continuous coordinate lies past the lattice point below it.
pub open spec fn spec_fraction(coordinate: int, side: int) -> int {
    spec_wrap(coordinate, side * UNIT) % (UNIT as int)
}

/// The lattice point after `index`, on a torus of `side` cells.
pub open spec fn spec_next(index: int, side: int) -> int {
    spec_wrap(index + 1, side)
}

/// The value a fraction `t / UNIT` of the way from `a` to `b`, rounded down.
pub open spec fn spec_lerp(a: int, b: int, t: int) -> int {
    (a * (UNIT - t) + b * t) / (UNIT as int)
}

/// The bilinear interpolation of a buffer at a continuous point: along `x`
/// between the two lattice columns around the point, in the row below and the
/// row above it, then along `y` between those two. Both axes wrap.
pub open spec fn spec_sample(buffer: Seq<int>, width: int, height: int, x: int, y: int) -> int {
    let left = spec_whole(x, width);
    let right = spec_next(left, width);
    let low = spec_whole(y, height);
    let high = spec_next(low, height);
    let across = spec_fraction(x, width);
    let along = spec_fraction(y, height);
    spec_lerp(
        spec_lerp(buffer[spec_cell(left, low, width)], buffer[spec_cell(right, low, width)], across),
        spec_lerp(
            buffer[spec_cell(left, high, width)],
            buffer[spec_cell(right, high, width)],
            across,
        ),
        along,
    )
}

/// The lattice point nearest a continuous coordinate, halves rounding up, on a
/// torus of `side` cells.
pub open spec fn spec_nearest(coordinate: int, side: int) -> int {
    spec_wrap((coordinate + UNIT / 2) / (UNIT as int), side)
}

/// The cell nearest a continuous point.
pub open spec fn spec_target(x: int, y: int, width: int, height: int) -> int {
    spec_cell(spec_nearest(x, width), spec_nearest(y, height), width)
}

/// A field after `amount` was added to one cell, saturating at `TRAIL_MAX`.
pub open spec fn spec_deposited(field: Seq<int>, cell: int, amount: int) -> Seq<int> {
    field.update(
        cell,
        if field[cell] + amount <= TRAIL_MAX {
            field[cell] + amount
        } else {
            TRAIL_MAX as int
        },
    )
}

/// The rank that stands for the fraction `q / UNIT` of `cells` values: that
/// share of the way through them, rounded down, and the last rank for the
/// whole.
pub open spec fn spec_rank(cells: int, q: int) -> int {
    if cells * q / (UNIT as int) < cells - 1 {
        cells * q / (UNIT as int)
    } else {
        cells - 1
    }
}

/// The sum of any part of a window of trail intensities fits in 128 bits.
pub proof fn lemma_window_fits(radius: int, count: int)
    by (nonlinear_arith)
    requires
        0 <= radius <= MAX_DIFFUSIVITY,
        0 <= count <= 2 * radius + 1,
    ensures
        0 <= count * ((2 * radius + 1) * TRAIL_MAX) <= 0x1000_0000_0000_0000_0000_0000,
        0 < (2 * radius + 1) * (2 * radius + 1) <= 0x1000_0000_0000,
{
}

/// What survives of a value after decay lies between zero and the value.
pub proof fn lemma_decay_bound(value: int, decay: int)
    requires
        0 <= value,
        0 <= decay <= UNIT,
    ensures
        0 <= spec_scale(value, decay) <= value,
{
    assert(0 <= value * decay <= value * UNIT) by (nonlinear_arith)
        requires
            0 <= value,
            0 <= decay <= UNIT,
    ;
    lemma_floor_div_bound(value * decay, UNIT as int, value);
    lemma_floor_div_range(value * decay, UNIT as int);
}

/// An interpolated value lies within any bound that holds of both ends.
pub proof fn lemma_lerp_bound(a: int, b: int, t: int, bound: int)
    requires
        -bound <= a <= bound,
        -bound <= b <= bound,
        0 <= t <= UNIT,
    ensures
        -(bound * UNIT) <= a * (UNIT - t) <= bound * UNIT,
        -(bound * UNIT) <= b * t <= bound * UNIT,
        -(bound * UNIT) <= a * (UNIT - t) + b * t <= bound * UNIT,
        -bound <= spec_lerp(a, b, t) <= bound,
{
    let u = UNIT as int;
    assert(-(bound * (u - t)) <= a * (u - t) <= bound * (u - t)) by (nonlinear_arith)
        requires
            -bound <= a <= bound,
            0 <= u - t,
    ;
    assert(-(bound * t) <= b * t <= bound * t) by (nonlinear_arith)
        requires
            -bound <= b <= bound,
            0 <= t,
    ;
    assert(bound * (u - t) + bound * t == bound * u) by (nonlinear_arith);
    assert(0 <= bound * (u - t) && 0 <= bound * t) by (nonlinear_arith)
        requires
            0 <= bound,
            0 <= t <= u,
    ;
    lemma_floor_div_bound(a * (u - t) + b * t, u, bound);
}

/// Interpolating at either end gives that end.
pub proof fn lemma_lerp_ends(a: int, b: int)
    ensures
        spec_lerp(a, b, 0) == a,
        spec_lerp(a, b, UNIT as int) == b,
{
    let u = UNIT as int;
    assert(a * (u - 0) + b * 0 == u * a) by (nonlinear_arith);
    assert(a * (u - u) + b * u == u * b) by (nonlinear_arith);
    lemma_div_multiples_vanish(a, u);
    lemma_div_multiples_vanish(b, u);
}

/// What a grid is, mathematically: its size, its two fields in row-major
/// order, and the configuration of its population.
pub struct GridView {
    pub width: int,
    pub height: int,
    /// The trail field, which deposits and diffusion change.
    pub field: Seq<int>,
    /// The read buffer, which agents sense.
    pub buffer: Seq<int>,
    pub config: PopulationConfig,
}

impl GridView {
    /// The invariant of a grid.
    pub open spec fn wf(self) -> bool {
        &&& is_grid_size(self.width, self.height)
        &&& self.field.len() == self.width * self.height
        &&& self.buffer.len() == self.width * self.height
        &&& is_trail(self.field)
        &&& is_sensed(self.buffer)
        &&& self.config.wf()
    }

    /// What the sensors read at a continuous point.
    pub open spec fn sample(self, x: int, y: int) -> int {
        spec_sample(self.buffer, self.width, self.height, x, y)
    }

    /// The value of the trail field at the fraction `q / UNIT` of the way
    /// through its values in ascending order.
    pub open spec fn quantile(self, q: int) -> int {
        ranked_value(self.field, spec_rank(self.field.len() as int, q))
    }

    /// The grid after one diffusion of the given radius.
    pub open spec fn diffused(self, radius: int) -> GridView {
        GridView {
            field: spec_diffused(
                self.field,
                self.width,
                self.height,
                radius,
                self.config.decay_factor as int,
            ),
            ..self
        }
    }

    /// The grid after an agent standing at a continuous point left its trail.
    pub open spec fn deposited(self, x: int, y: int) -> GridView {
        GridView {
            field: spec_deposited(
                self.field,
                spec_target(x, y, self.width, self.height),
                self.config.deposition_amount as int,
            ),
            ..self
        }
    }
}

/// One population's trail field, its read buffer and its configuration.
#[derive(Debug)]
pub struct Grid {
    config: PopulationConfig,
    width: usize,
    height: usize,
    data: Vec<i64>,
    buf: Vec<i128>,
}

impl View for Grid {
    type V = GridView;

    closed spec fn view(&self) -> GridView {
        GridView {
            width: self.width as int,
            height: self.height as int,
            field: ints_of(self.data@),
            buffer: wide_ints_of(self.buf@),
            config: self.config,
        }
    }
}

/// The number of cells of a grid, where it can be built.
fn cell_count(width: usize, height: usize) -> (cells: Option<usize>)
    ensures
        cells is Some <==> is_grid_size(width as int, height as int),
        cells matches Some(n) ==> n == width * height,
{
    if width == 0 || height == 0 || width > MAX_SIDE || height > MAX_SIDE {
        return None;
    }
    assert(0 < width * height <= 0x1000_0000_0000_0000) by (nonlinear_arith)
        requires
            0 < width <= 0x4000_0000,
            0 < height <= 0x4000_0000,
    ;
    let wide: u64 = (width as u64) * (height as u64);
    if wide > usize::MAX as u64 {
        None
    } else {
        Some(wide as usize)
    }
}

/// Splits a continuous coordinate into the lattice point at or below it and
/// the fraction past that point.
fn split_coordinate(coordinate: i64, side: usize) -> (parts: (usize, i64))
    requires
        0 < side <= MAX_SIDE,
    ensures
        parts.0 == spec_whole(coordinate as int, side as int),
        parts.1 == spec_fraction(coordinate as int, side as int),
        parts.0 < side,
        0 <= parts.1 < UNIT,
{
    let span: i128 = (side as i128) * 65536;
    let wrapped = wrap(coordinate as i128, span) as u64;
    proof {
        assert(UNIT == 65536);
        assert(side * UNIT == span);
        assert(wrapped < 65536 * side);
        lemma_multiply_divide_lt(wrapped as int, 65536, side as int);
    }
    ((wrapped / 65536) as usize, (wrapped % 65536) as i64)
}

/// The lattice point after `index`, wrapping at the side.
fn next_index(index: usize, side: usize) -> (next: usize)
    requires
        index < side,
    ensures
        next == spec_next(index as int, side as int),
        next < side,
{
    proof {
        lemma_wrap_range(index + 1, side as int);
        if index + 1 == side {
            lemma_mod_self_0(side as int);
        }
    }
    if index + 1 == side {
        0
    } else {
        index + 1
    }
}

/// The lattice point nearest a continuous coordinate.
fn nearest_index(coordinate: i64, side: usize) -> (nearest: usize)
    requires
        0 < side,
    ensures
        nearest == spec_nearest(coordinate as int, side as int),
        nearest < side,
{
    let lattice = floor_div(coordinate as i128 + 32768, 65536);
    wrap(lattice, side as i128) as usize
}

/// Interpolates between two sensed values.
fn lerp(a: i128, b: i128, t: i64) -> (value: i128)
    requires
        -SENSE_MAX <= a <= SENSE_MAX,
        -SENSE_MAX <= b <= SENSE_MAX,
        0 <= t <= UNIT,
    ensures
        value == spec_lerp(a as int, b as int, t as int),
        -SENSE_MAX <= value <= SENSE_MAX,
{
    proof {
        lemma_lerp_bound(a as int, b as int, t as int, SENSE_MAX as int);
    }
    let near: i128 = a * ((UNIT - t) as i128);
    let far: i128 = b * (t as i128);
    floor_div(near + far, UNIT as i128)
}

impl Grid {
    /// The invariant of a grid.
    pub open spec fn wf(&self) -> bool {
        self@.wf()
    }

    /// A grid whose trail field is drawn at random, each cell below `UNIT`,
    /// and whose read buffer is zero.
    pub fn new(width: usize, height: usize, config: PopulationConfig) -> (made: Result<
        Grid,
        ConfigError,
    >)
        ensures
            made is Ok <==> is_grid_size(width as int, height as int) && config.wf(),
            made matches Ok(grid) ==> {
                &&& grid.wf()
                &&& grid@.width == width
                &&& grid@.height == height
                &&& grid@.config == config
                &&& forall|c: int| 0 <= c < width * height ==> 0 <= #[trigger] grid@.field[c] < UNIT
                &&& forall|c: int| 0 <= c < width * height ==> #[trigger] grid@.buffer[c] == 0
            },
            made matches Err(e) ==> e == spec_grid_error(width as int, height as int, config),
    {
        if width == 0 || height == 0 {
            return Err(ConfigError::EmptyGrid);
        }
        let cells = match cell_count(width, height) {
            Some(n) => n,
            None => {
                return Err(ConfigError::GridTooLarge);
            },
        };
        if !config.is_valid() {
            return Err(ConfigError::InvalidPopulation);
        }
        let mut data: Vec<i64> = Vec::new();
        let mut buf: Vec<i128> = Vec::new();
        let mut c: usize = 0;
        while c < cells
            invariant
                c <= cells,
                data.len() == c,
                buf.len() == c,
                forall|j: int| 0 <= j < c ==> 0 <= #[trigger] data[j] < UNIT,
                forall|j: int| 0 <= j < c ==> #[trigger] buf[j] == 0,
            decreases cells - c,
        {
            let drawn = uniform_below(UNIT as u64);
            data.push(drawn as i64);
            buf.push(0);
            c += 1;
        }
        Ok(Grid { config, width, height, data, buf })
    }

    /// A grid with the given trail field, in row-major order, and a zero
    /// read buffer.
    pub fn from_field(width: usize, height: usize, config: PopulationConfig, field: Vec<i64>) -> (made:
        Result<Grid, ConfigError>)
        ensures
            made is Ok <==> {
                &&& is_grid_size(width as int, height as int)
                &&& config.wf()
                &&& field.len() == width * height
                &&& is_trail(ints_of(field@))
            },
            made matches Ok(grid) ==> {
                &&& grid.wf()
                &&& grid@.width == width
                &&& grid@.height == height
                &&& grid@.config == config
                &&& grid@.field == ints_of(field@)
                &&& forall|c: int| 0 <= c < width * height ==> #[trigger] grid@.buffer[c] == 0
            },
            made matches Err(e) ==> e == (if !is_grid_size(width as int, height as int)
                || !config.wf() {
                spec_grid_error(width as int, height as int, config)
            } else if field.len() != width * height {
                ConfigError::FieldShape
            } else {
                ConfigError::TrailOutOfRange
            }),
    {
        if width == 0 || height == 0 {
            return Err(ConfigError::EmptyGrid);
        }
        let cells = match cell_count(width, height) {
            Some(n) => n,
            None => {
                return Err(ConfigError::GridTooLarge);
            },
        };
        if !config.is_valid() {
            return Err(ConfigError::InvalidPopulation);
        }
        if field.len() != cells {
            return Err(ConfigError::FieldShape);
        }
        let mut buf: Vec<i128> = Vec::new();
        let mut c: usize = 0;
        while c < cells
            invariant
                c <= cells,
                cells == field.len(),
                cells == width * height,
                is_grid_size(width as int, height as int),
                config.wf(),
                buf.len() == c,
                forall|j: int| 0 <= j < c ==> 0 <= #[trigger] field[j] <= TRAIL_MAX,
                forall|j: int| 0 <= j < c ==> #[trigger] buf[j] == 0,
            decreases cells - c,
        {
            if field[c] < 0 || field[c] > TRAIL_MAX {
                assert(!(0 <= ints_of(field@)[c as int] <= TRAIL_MAX));
                return Err(ConfigError::TrailOutOfRange);
            }
            buf.push(0);
            c += 1;
        }
        Ok(Grid { config, width, height, data: field, buf })
    }

    /// The width of the grid, in cells.
    pub fn width(&self) -> (width: usize)
        ensures
            width == self@.width,
    {
        self.width
    }

    /// The height of the grid, in cells.
    pub fn height(&self) -> (height: usize)
        ensures
            height == self@.height,
    {
        self.height
    }

    /// The configuration of the grid's population.
    pub fn config(&self) -> (config: PopulationConfig)
        ensures
            config == self@.config,
    {
        self.config
    }

    /// The trail field, in row-major order.
    pub fn data(&self) -> (field: &Vec<i64>)
        ensures
            ints_of(field@) == self@.field,
    {
        &self.data
    }

    /// The read buffer, in row-major order.
    pub fn buffer(&self) -> (buffer: &Vec<i128>)
        ensures
            wide_ints_of(buffer@) == self@.buffer,
    {
        &self.buf
    }

    /// The row-major index of a cell.
    fn cell(&self, column: usize, row: usize) -> (index: usize)
        requires
            self.wf(),
            column < self@.width,
            row < self@.height,
        ensures
            index == spec_cell(column as int, row as int, self@.width),
            index < self@.width * self@.height,
    {
        proof {
            lemma_cell_in_range(column as int, row as int, self@.width, self@.height);
        }
        row * self.width + column
    }

    /// The value of the read buffer at a lattice point.
    fn sensed(&self, column: usize, row: usize) -> (value: i128)
        requires
            self.wf(),
            column < self@.width,
            row < self@.height,
        ensures
            value == self@.buffer[spec_cell(column as int, row as int, self@.width)],
            -SENSE_MAX <= value <= SENSE_MAX,
    {
        let index = self.cell(column, row);
        assert(self@.buffer[index as int] == self.buf[index as int]);
        self.buf[index]
    }

    /// Reads the buffer at a continuous point by bilinear interpolation. Both
    /// axes wrap, so every point has a value.
    pub fn sample(&self, x: i64, y: i64) -> (value: i128)
        requires
            self.wf(),
        ensures
            value == self@.sample(x as int, y as int),
            -SENSE_MAX <= value <= SENSE_MAX,
    {
        let (left, across) = split_coordinate(x, self.width);
        let (low, along) = split_coordinate(y, self.height);
        let right = next_index(left, self.width);
        let high = next_index(low, self.height);
        let below = lerp(self.sensed(left, low), self.sensed(right, low), across);
        let above = lerp(self.sensed(left, high), self.sensed(right, high), across);
        lerp(below, above, along)
    }

    /// Adds the population's deposition amount to the cell nearest a
    /// continuous point, saturating at `TRAIL_MAX`. Both axes wrap, so every
    /// point has a cell.
    pub fn deposit(&mut self, x: i64, y: i64)
        requires
            old(self).wf(),
        ensures
            final(self).wf(),
            final(self)@ == old(self)@.deposited(x as int, y as int),
    {
        let column = nearest_index(x, self.width);
        let row = nearest_index(y, self.height);
        let target = self.cell(column, row);
        assert(self@.field[target as int] == self.data[target as int]);
        let sum = self.data[target] + self.config.deposition_amount;
        let raised = if sum <= TRAIL_MAX {
            sum
        } else {
            TRAIL_MAX
        };
        self.data[target] = raised;
        assert(final(self)@.field =~= old(self)@.deposited(x as int, y as int).field);
    }

    /// How many cells of the trail field hold at most `threshold`.
    fn count_at_most(&self, threshold: i64) -> (count: usize)
        requires
            self.wf(),
        ensures
            count == count_upto(self@.field, threshold as int),
    {
        let ghost field = self@.field;
        let mut count: usize = 0;
        let mut c: usize = 0;
        while c < self.data.len()
            invariant
                c <= self.data.len(),
                field == self@.field,
                field.len() == self.data.len(),
                count <= c,
                count == count_upto(field.take(c as int), threshold as int),
            decreases self.data.len() - c,
        {
            proof {
                assert(field.take(c + 1).drop_last() =~= field.take(c as int));
                assert(field.take(c + 1).last() == self.data[c as int]);
            }
            if self.data[c] <= threshold {
                count += 1;
            }
            c += 1;
        }
        assert(field.take(c as int) =~= field);
        count
    }

    /// The value of the trail field at the fraction `q / UNIT` of the way
    /// through its values in ascending order: the minimum for `0`, the maximum
    /// for `UNIT`.
    pub fn quantile(&self, q: i64) -> (value: i64)
        requires
            self.wf(),
            0 <= q <= UNIT,
        ensures
            value == self@.quantile(q as int),
            is_ranked(self@.field, spec_rank(self@.width * self@.height, q as int), value as int),
            0 <= value <= TRAIL_MAX,
            q == 0 ==> is_minimum(self@.field, value as int),
            q == UNIT ==> is_maximum(self@.field, value as int),
    {
        let ghost field = self@.field;
        let cells = self.data.len();
        assert(0 <= cells * q <= 0x1_0000_0000_0000_0000 * 0x1_0000) by (nonlinear_arith)
            requires
                0 <= cells <= 0x1_0000_0000_0000_0000,
                0 <= q <= 0x1_0000,
        ;
        assert(cells > 0) by (nonlinear_arith)
            requires
                cells == self@.width * self@.height,
                0 < self@.width,
                0 < self@.height,
        ;
        let share: u128 = (cells as u128) * (q as u128) / 65536;
        let rank: usize = if share < (cells - 1) as u128 {
            share as usize
        } else {
            cells - 1
        };
        assert(rank == spec_rank(cells as int, q as int));
        let mut low: i64 = 0;
        let mut high: i64 = TRAIL_MAX;
        proof {
            lemma_count_none(field, -1);
            lemma_count_all(field, TRAIL_MAX as int);
        }
        while low < high
            invariant
                self.wf(),
                field == self@.field,
                0 <= low <= high <= TRAIL_MAX,
                count_upto(field, low - 1) <= rank < count_upto(field, high as int),
            decreases high - low,
        {
            let middle = low + (((high - low) as u64) / 2) as i64;
            let count = self.count_at_most(middle);
            if count > rank {
                high = middle;
            } else {
                low = middle + 1;
            }
        }
        proof {
            lemma_ranked_value(field, rank as int, low as int);
            if q == 0 {
                lemma_first_rank_is_minimum(field, low as int);
            }
            if q == UNIT {
                assert(cells * q == 65536 * cells) by (nonlinear_arith)
                    requires
                        q == 65536,
                ;
                lemma_last_rank_is_maximum(field, low as int);
            }
        }
        low
    }

    /// The sum of the window of radius `radius` around a cell along its row.
    fn window_sum(&self, column: usize, row: usize, radius: usize) -> (sum: i128)
        requires
            self.wf(),
            column < self@.width,
            row < self@.height,
            radius <= MAX_DIFFUSIVITY,
        ensures
            sum == row_sum(
                self@.field,
                self@.width,
                column as int,
                row as int,
                radius as int,
                2 * radius + 1,
            ),
            0 <= sum <= (2 * radius + 1) * TRAIL_MAX,
    {
        let ghost field = self@.field;
        let count: usize = 2 * radius + 1;
        let mut at: usize = wrap(column as i128 - radius as i128, self.width as i128) as usize;
        let mut sum: i128 = 0;
        let mut k: usize = 0;
        while k < count
            invariant
                self.wf(),
                field == self@.field,
                column < self@.width,
                row < self@.height,
                radius <= MAX_DIFFUSIVITY,
                count == 2 * radius + 1,
                k <= count,
                at == spec_wrap(column - radius + k, self@.width),
                at < self@.width,
                sum == row_sum(field, self@.width, column as int, row as int, radius as int, k as int),
                0 <= sum <= k * TRAIL_MAX,
            decreases count - k,
        {
            let index = self.cell(at, row);
            proof {
                assert(field[index as int] == self.data[index as int]);
                lemma_wrap_step(column - radius + k, self@.width);
            }
            sum = sum + self.data[index] as i128;
            at = next_index(at, self.width);
            k += 1;
        }
        sum
    }

    /// For every cell, the sum of its window along its row.
    fn row_sums(&self, radius: usize) -> (sums: Vec<i128>)
        requires
            self.wf(),
            radius <= MAX_DIFFUSIVITY,
        ensures
            sums.len() == self@.width * self@.height,
            forall|c: int|
                0 <= c < sums.len() ==> #[trigger] sums[c] == row_sum(
                    self@.field,
                    self@.width,
                    c % self@.width,
                    c / self@.width,
                    radius as int,
                    2 * radius + 1,
                ),
            forall|c: int| 0 <= c < sums.len() ==> 0 <= #[trigger] sums[c] <= (2 * radius + 1) * TRAIL_MAX,
    {
        let cells = self.data.len();
        let mut sums: Vec<i128> = Vec::new();
        let mut c: usize = 0;
        while c < cells
            invariant
                self.wf(),
                radius <= MAX_DIFFUSIVITY,
                cells == self@.width * self@.height,
                c <= cells,
                sums.len() == c,
                forall|j: int|
                    0 <= j < c ==> #[trigger] sums[j] == row_sum(
                        self@.field,
                        self@.width,
                        j % self@.width,
                        j / self@.width,
                        radius as int,
                        2 * radius + 1,
                    ),
                forall|j: int| 0 <= j < c ==> 0 <= #[trigger] sums[j] <= (2 * radius + 1) * TRAIL_MAX,
            decreases cells - c,
        {
            proof {
                lemma_cell_join(c as int, self@.width, self@.height);
            }
            let sum = self.window_sum(c % self.width, c / self.width, radius);
            sums.push(sum);
            c += 1;
        }
        sums
    }

    /// The sum of the square window of radius `radius` around a cell, from
    /// the sums of the windows along the rows.
    fn column_sum(&self, sums: &Vec<i128>, column: usize, row: usize, radius: usize) -> (sum: i128)
        requires
            self.wf(),
            column < self@.width,
            row < self@.height,
            radius <= MAX_DIFFUSIVITY,
            sums.len() == self@.width * self@.height,
            forall|c: int|
                0 <= c < sums.len() ==> #[trigger] sums[c] == row_sum(
                    self@.field,
                    self@.width,
                    c % self@.width,
                    c / self@.width,
                    radius as int,
                    2 * radius + 1,
                ),
        ensures
            sum == box_sum(
                self@.field,
                self@.width,
                self@.height,
                column as int,
                row as int,
                radius as int,
                2 * radius + 1,
            ),
    {
        let ghost field = self@.field;
        let count: usize = 2 * radius + 1;
        let mut at: usize = wrap(row as i128 - radius as i128, self.height as i128) as usize;
        let mut sum: i128 = 0;
        let mut k: usize = 0;
        while k < count
            invariant
                self.wf(),
                field == self@.field,
                column < self@.width,
                row < self@.height,
                radius <= MAX_DIFFUSIVITY,
                count == 2 * radius + 1,
                k <= count,
                at == spec_wrap(row - radius + k, self@.height),
                at < self@.height,
                sums.len() == self@.width * self@.height,
                forall|c: int|
                    0 <= c < sums.len() ==> #[trigger] sums[c] == row_sum(
                        field,
                        self@.width,
                        c % self@.width,
                        c / self@.width,
                        radius as int,
                        2 * radius + 1,
                    ),
                sum == box_sum(
                    field,
                    self@.width,
                    self@.height,
                    column as int,
                    row as int,
                    radius as int,
                    k as int,
                ),
            decreases count - k,
        {
            let index = self.cell(column, at);
            proof {
                lemma_cell_split(column as int, at as int, self@.width);
                lemma_wrap_step(row - radius + k, self@.height);
                lemma_box_sum_bound(
                    field,
                    self@.width,
                    self@.height,
                    column as int,
                    row as int,
                    radius as int,
                    k as int,
                    TRAIL_MAX as int,
                );
                lemma_box_sum_bound(
                    field,
                    self@.width,
                    self@.height,
                    column as int,
                    row as int,
                    radius as int,
                    k + 1,
                    TRAIL_MAX as int,
                );
                lemma_window_fits(radius as int, k as int);
                lemma_window_fits(radius as int, k + 1);
            }
            sum = sum + sums[index];
            at = next_index(at, self.height);
            k += 1;
        }
        sum
    }

    /// Blurs the trail field over the square neighbourhood of the given
    /// radius around each cell, wrapping at the edges, and lets it decay by
    /// the population's decay factor. The read buffer is left as it is.
    pub fn diffuse(&mut self, radius: usize)
        requires
            old(self).wf(),
            radius <= MAX_DIFFUSIVITY,
        ensures
            final(self).wf(),
            final(self)@ == old(self)@.diffused(radius as int),
    {
        let ghost before = self@;
        let cells = self.data.len();
        let sums = self.row_sums(radius);
        let side: i128 = 2 * (radius as i128) + 1;
        proof {
            lemma_window_fits(radius as int, 0);
        }
        let area: i128 = side * side;
        let mut after: Vec<i64> = Vec::new();
        let mut c: usize = 0;
        while c < cells
            invariant
                self.wf(),
                self@ == before,
                radius <= MAX_DIFFUSIVITY,
                side == 2 * radius + 1,
                area == side * side,
                cells == before.width * before.height,
                sums.len() == cells,
                forall|j: int|
                    0 <= j < sums.len() ==> #[trigger] sums[j] == row_sum(
                        before.field,
                        before.width,
                        j % before.width,
                        j / before.width,
                        radius as int,
                        2 * radius + 1,
                    ),
                c <= cells,
                after.len() == c,
                forall|j: int|
                    0 <= j < c ==> #[trigger] after[j] == spec_diffused_cell(
                        before.field,
                        before.width,
                        before.height,
                        j,
                        radius as int,
                        before.config.decay_factor as int,
                    ),
                forall|j: int| 0 <= j < c ==> 0 <= #[trigger] after[j] <= TRAIL_MAX,
            decreases cells - c,
        {
            proof {
                lemma_cell_join(c as int, before.width, before.height);
            }
            let column = c % self.width;
            let row = c / self.width;
            let total = self.column_sum(&sums, column, row, radius);
            proof {
                lemma_mean_bound(
                    before.field,
                    before.width,
                    before.height,
                    column as int,
                    row as int,
                    radius as int,
                    TRAIL_MAX as int,
                );
                lemma_window_fits(radius as int, 2 * radius + 1);
            }
            let mean = floor_div(total, area);
            let kept = scale(mean as i64, self.config.decay_factor);
            proof {
                lemma_decay_bound(mean as int, self.config.decay_factor as int);
            }
            after.push(kept as i64);
            c += 1;
        }
        self.data = after;
        assert(final(self)@.field =~= before.diffused(radius as int).field);
    }

    /// A copy of the grid that shares nothing with it: what is later done to
    /// either leaves the other as it was.
    pub fn snapshot(&self) -> (copy: Grid)
        ensures
            copy@ == self@,
    {
        let data = self.data.clone();
        let buf = self.buf.clone();
        assert(data@ =~= self.data@);
        assert(buf@ =~= self.buf@);
        Grid { config: self.config, width: self.width, height: self.height, data, buf }
    }
}

/// The grids of a model, each as what it is mathematically.
pub open spec fn grid_views(grids: Seq<Grid>) -> Seq<GridView> {
    grids.map_values(|grid: Grid| grid@)
}

/// The trail fields of a set of grids.
pub open spec fn fields_of(views: Seq<GridView>) -> Seq<Seq<int>> {
    views.map_values(|view: GridView| view.field)
}

/// An attraction table of machine integers, read as mathematical integers.
pub open spec fn rows_of(table: Seq<Vec<i64>>) -> Seq<Seq<int>> {
    table.map_values(|row: Vec<i64>| ints_of(row@))
}

/// Whether every grid of a set is well formed and all have one size.
pub open spec fn is_grid_set(views: Seq<GridView>) -> bool {
    forall|j: int|
        0 <= j < views.len() ==> {
            &&& (#[trigger] views[j]).wf()
            &&& views[j].width == views[0].width
            &&& views[j].height == views[0].height
        }
}

/// A set of grids after each read buffer was refreshed: population `i` senses
/// the sum of all trail fields weighted by row `i` of the table. The trail
/// fields stay as they are.
pub open spec fn combined_views(views: Seq<GridView>, table: Seq<Seq<int>>) -> Seq<GridView> {
    Seq::new(
        views.len(),
        |i: int|
            GridView {
                buffer: spec_combined(fields_of(views), table[i], views[i].field.len() as int),
                ..views[i]
            },
    )
}

/// The trail fields of a set of grids are a field set of the cells of the
/// first grid.
pub proof fn lemma_fields_of_set(views: Seq<GridView>)
    requires
        is_grid_set(views),
        views.len() > 0,
    ensures
        is_field_set(fields_of(views), views[0].field.len() as int),
        fields_of(views).len() == views.len(),
{
    assert forall|j: int| 0 <= j < views.len() implies (#[trigger] fields_of(views)[j]).len()
        == views[0].field.len() && is_bounded(fields_of(views)[j], TRAIL_MAX as int) by {
        assert(views[j].wf());
        assert(views[0].wf());
    }
}

/// At a lattice point, a sample is the value the buffer holds there.
pub proof fn lemma_sample_lattice(
    buffer: Seq<int>,
    width: int,
    height: int,
    column: int,
    row: int,
)
    requires
        0 <= column < width,
        0 <= row < height,
    ensures
        spec_sample(buffer, width, height, column * UNIT, row * UNIT) == buffer[spec_cell(
            column,
            row,
            width,
        )],
{
    let u = UNIT as int;
    assert(0 <= column * u < width * u && 0 <= row * u < height * u) by (nonlinear_arith)
        requires
            0 <= column < width,
            0 <= row < height,
            u == 65536,
    ;
    lemma_wrap_range(column * u, width * u);
    lemma_wrap_range(row * u, height * u);
    lemma_fundamental_div_mod_converse(column * u, u, column, 0);
    lemma_fundamental_div_mod_converse(row * u, u, row, 0);
    let right = spec_next(column, width);
    let high = spec_next(row, height);
    lemma_lerp_ends(buffer[spec_cell(column, row, width)], buffer[spec_cell(right, row, width)]);
    lemma_lerp_ends(buffer[spec_cell(column, high, width)], buffer[spec_cell(right, high, width)]);
    lemma_lerp_ends(buffer[spec_cell(column, row, width)], buffer[spec_cell(column, high, width)]);
}

/// Over a buffer that holds one value everywhere, every sample is that value.
pub proof fn lemma_sample_flat(
    buffer: Seq<int>,
    width: int,
    height: int,
    x: int,
    y: int,
    value: int,
)
    requires
        0 < width,
        0 < height,
        buffer.len() == width * height,
        forall|c: int| 0 <= c < buffer.len() ==> #[trigger] buffer[c] == value,
    ensures
        spec_sample(buffer, width, height, x, y) == value,
{
    let u = UNIT as int;
    lemma_wrap_range(x, width * u);
    lemma_wrap_range(y, height * u);
    let left = spec_whole(x, width);
    let low = spec_whole(y, height);
    lemma_floor_div_range(spec_wrap(x, width * u), u);
    lemma_floor_div_range(spec_wrap(y, height * u), u);
    lemma_multiply_divide_lt(spec_wrap(x, width * u), u, width);
    lemma_multiply_divide_lt(spec_wrap(y, height * u), u, height);
    let right = spec_next(left, width);
    let high = spec_next(low, height);
    lemma_wrap_range(left + 1, width);
    lemma_wrap_range(low + 1, height);
    lemma_cell_in_range(left, low, width, height);
    lemma_cell_in_range(right, low, width, height);
    lemma_cell_in_range(left, high, width, height);
    lemma_cell_in_range(right, high, width, height);
    let across = spec_fraction(x, width);
    let along = spec_fraction(y, height);
    assert(value * (u - across) + value * across == u * value) by (nonlinear_arith);
    assert(value * (u - along) + value * along == u * value) by (nonlinear_arith);
    lemma_div_multiples_vanish(value, u);
}

/// Under the identity table, combining leaves in every read buffer exactly
/// the trail field of the same grid.
pub proof fn lemma_identity_coupling(views: Seq<GridView>, own: int)
    requires
        is_grid_set(views),
        0 <= own < views.len(),
    ensures
        combined_views(views, identity_table(views.len() as int))[own].buffer
            == views[own].field,
        combined_views(views, identity_table(views.len() as int))[own].field == views[own].field,
{
    let fields = fields_of(views);
    assert(fields[own] == views[own].field);
    lemma_combine_identity(fields, own, views[own].field.len() as int);
}

/// The trail after two deposits does not depend on their order.
pub proof fn lemma_deposits_commute(grid: GridView, x: int, y: int, other_x: int, other_y: int)
    requires
        grid.wf(),
    ensures
        grid.deposited(x, y).deposited(other_x, other_y) == grid.deposited(
            other_x,
            other_y,
        ).deposited(x, y),
{
    lemma_wrap_range((x + UNIT / 2) / (UNIT as int), grid.width);
    lemma_wrap_range((y + UNIT / 2) / (UNIT as int), grid.height);
    lemma_wrap_range((other_x + UNIT / 2) / (UNIT as int), grid.width);
    lemma_wrap_range((other_y + UNIT / 2) / (UNIT as int), grid.height);
    lemma_cell_in_range(
        spec_nearest(x, grid.width),
        spec_nearest(y, grid.height),
        grid.width,
        grid.height,
    );
    lemma_cell_in_range(
        spec_nearest(other_x, grid.width),
        spec_nearest(other_y, grid.height),
        grid.width,
        grid.height,
    );
    assert(grid.deposited(x, y).deposited(other_x, other_y).field =~= grid.deposited(
        other_x,
        other_y,
    ).deposited(x, y).field);
}

/// A deposit is local: where nothing blurs and nothing decays, a deposit
/// followed by a diffusion raises the cell nearest the point by the
/// deposition amount, up to `TRAIL_MAX`, and leaves every other cell as it
/// was.
pub proof fn lemma_deposit_is_local(grid: GridView, x: int, y: int, cell: int)
    requires
        grid.wf(),
        grid.config.decay_factor == UNIT,
        0 <= cell < grid.field.len(),
    ensures
        0 <= spec_target(x, y, grid.width, grid.height) < grid.field.len(),
        cell != spec_target(x, y, grid.width, grid.height) ==> grid.deposited(x, y).diffused(
            0,
        ).field[cell] == grid.field[cell],
        cell == spec_target(x, y, grid.width, grid.height) ==> grid.deposited(x, y).diffused(
            0,
        ).field[cell] == (if grid.field[cell] + grid.config.deposition_amount <= TRAIL_MAX {
            grid.field[cell] + grid.config.deposition_amount
        } else {
            TRAIL_MAX as int
        }),
{
    lemma_wrap_range((x + UNIT / 2) / (UNIT as int), grid.width);
    lemma_wrap_range((y + UNIT / 2) / (UNIT as int), grid.height);
    lemma_cell_in_range(
        spec_nearest(x, grid.width),
        spec_nearest(y, grid.height),
        grid.width,
        grid.height,
    );
    lemma_diffuse_identity(grid.deposited(x, y).field, grid.width, grid.height);
}

/// What a population senses at one cell under the given weights.
fn mixed_cell(grids: &Vec<Grid>, weights: &Vec<i64>, cell: usize) -> (value: i128)
    requires
        is_grid_set(grid_views(grids@)),
        grids.len() > 0,
        is_weight_row(ints_of(weights@), grids.len() as int),
        cell < grids[0]@.field.len(),
    ensures
        value == spec_combined_cell(
            fields_of(grid_views(grids@)),
            ints_of(weights@),
            cell as int,
        ),
        -SENSE_MAX <= value <= SENSE_MAX,
{
    let ghost views = grid_views(grids@);
    let ghost fields = fields_of(views);
    let ghost row = ints_of(weights@);
    let ghost cells = views[0].field.len() as int;
    proof {
        lemma_fields_of_set(views);
    }
    let mut sum: i128 = 0;
    let mut j: usize = 0;
    while j < grids.len()
        invariant
            j <= grids.len(),
            views == grid_views(grids@),
            fields == fields_of(views),
            row == ints_of(weights@),
            is_field_set(fields, cells),
            fields.len() == grids.len(),
            is_weight_row(row, fields.len() as int),
            0 <= cell < cells,
            sum == weighted_sum(fields, row, cell as int, j as int),
        decreases grids.len() - j,
    {
        proof {
            lemma_weighted_sum_bound(fields, row, cells, cell as int, j as int);
            lemma_weighted_sum_bound(fields, row, cells, cell as int, j + 1);
            assert(fields[j as int] == grids[j as int]@.field);
            assert(fields[j as int].len() == cells);
            assert(fields[j as int][cell as int] == grids[j as int].data[cell as int]);
            assert(row[j as int] == weights[j as int]);
            lemma_product_bound(
                row[j as int],
                fields[j as int][cell as int],
                WEIGHT_MAX as int,
                TRAIL_MAX as int,
            );
            assert(WEIGHT_MAX * TRAIL_MAX == 0x1000_0000_0000_0000) by (nonlinear_arith)
                requires
                    WEIGHT_MAX == 0x10_0000,
                    TRAIL_MAX == 0x100_0000_0000,
            ;
        }
        let term: i128 = (weights[j] as i128) * (grids[j].data[cell] as i128);
        sum = sum + term;
        j += 1;
    }
    proof {
        lemma_combined_bound(fields, row, cells, cell as int);
    }
    floor_div(sum, 65536)
}

/// What a population senses under the given weights, cell by cell.
fn mixed_field(grids: &Vec<Grid>, weights: &Vec<i64>) -> (mixed: Vec<i128>)
    requires
        is_grid_set(grid_views(grids@)),
        grids.len() > 0,
        is_weight_row(ints_of(weights@), grids.len() as int),
    ensures
        wide_ints_of(mixed@) == spec_combined(
            fields_of(grid_views(grids@)),
            ints_of(weights@),
            grids[0]@.field.len() as int,
        ),
        is_sensed(wide_ints_of(mixed@)),
{
    let ghost fields = fields_of(grid_views(grids@));
    let ghost row = ints_of(weights@);
    let cells = grids[0].data.len();
    let mut mixed: Vec<i128> = Vec::new();
    let mut c: usize = 0;
    while c < cells
        invariant
            is_grid_set(grid_views(grids@)),
            grids.len() > 0,
            is_weight_row(ints_of(weights@), grids.len() as int),
            fields == fields_of(grid_views(grids@)),
            row == ints_of(weights@),
            cells == grids[0]@.field.len(),
            c <= cells,
            mixed.len() == c,
            forall|k: int| 0 <= k < c ==> #[trigger] mixed[k] == spec_combined_cell(fields, row, k),
            forall|k: int| 0 <= k < c ==> -SENSE_MAX <= #[trigger] mixed[k] <= SENSE_MAX,
        decreases cells - c,
    {
        let value = mixed_cell(grids, weights, c);
        mixed.push(value);
        c += 1;
    }
    assert(wide_ints_of(mixed@) =~= spec_combined(fields, row, cells as int));
    mixed
}

/// Refreshes the read buffer of every grid: population `i` will sense, at
/// each cell, the sum of all populations' trails there, each weighted by its
/// entry in row `i` of the attraction table. The trail fields are not touched.
pub fn combine(grids: &mut Vec<Grid>, attraction_table: &Vec<Vec<i64>>)
    requires
        is_grid_set(grid_views(old(grids)@)),
        is_attraction_table(rows_of(attraction_table@), old(grids).len() as int),
    ensures
        grid_views(final(grids)@) == combined_views(
            grid_views(old(grids)@),
            rows_of(attraction_table@),
        ),
        is_grid_set(grid_views(final(grids)@)),
{
    let ghost before = grid_views(grids@);
    let ghost table = rows_of(attraction_table@);
    let ghost after = combined_views(before, table);
    let count = grids.len();
    let mut i: usize = 0;
    while i < count
        invariant
            i <= count,
            count == grids.len(),
            count == before.len(),
            is_grid_set(before),
            table == rows_of(attraction_table@),
            is_attraction_table(table, count as int),
            after == combined_views(before, table),
            is_grid_set(grid_views(grids@)),
            fields_of(grid_views(grids@)) == fields_of(before),
            forall|j: int| 0 <= j < i ==> (#[trigger] grids[j])@ == after[j],
            forall|j: int| i <= j < count ==> (#[trigger] grids[j])@ == before[j],
        decreases count - i,
    {
        let ghost current = grid_views(grids@);
        proof {
            assert(table[i as int] == ints_of(attraction_table[i as int]@));
            assert(is_weight_row(table[i as int], count as int));
            assert(current[0].wf());
            assert(current[i as int].wf());
            assert(before[i as int] == current[i as int]);
            assert(before[0].field.len() == current[0].field.len()) by {
                assert(fields_of(before)[0] == fields_of(current)[0]);
            }
        }
        let mixed = mixed_field(grids, &attraction_table[i]);
        grids[i].buf = mixed;
        proof {
            let now = grid_views(grids@);
            assert(now[i as int] == after[i as int]);
            assert forall|j: int| 0 <= j < count implies {
                &&& (#[trigger] now[j]).wf()
                &&& now[j].width == now[0].width
                &&& now[j].height == now[0].height
                &&& now[j].field == current[j].field
            } by {
                assert(current[j].wf());
                assert(current[0].wf());
            }
            assert(fields_of(now) =~= fields_of(current));
        }
        i += 1;
    }
    assert(grid_views(grids@) =~= after);
}

/// The reason a grid of this size and configuration is refused, where it is.
pub open spec fn spec_grid_error(width: int, height: int, config: PopulationConfig) -> ConfigError {
    if width == 0 || height == 0 {
        ConfigError::EmptyGrid
    } else if !is_grid_size(width, height) {
        ConfigError::GridTooLarge
    } else {
        ConfigError::InvalidPopulation
    }
}

} // verus!
