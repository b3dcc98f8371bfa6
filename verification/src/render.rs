//! From trail fields to pixels.
//!
//! One population alone makes a gray image: each cell as bright as its trail
//! is strong, up to a saturation level taken from a high quantile of the
//! field, so that a few extreme cells do not wash the image out. Several
//! populations share a colour image: each adds its colour to a pixel in
//! proportion to its exposure there, after a tone curve.

use crate::grid::{grid_views, ints_of, is_grid_set, Grid, GridView};
use crate::util::{floor_div, UNIT};
use crate::util::{lemma_floor_div_bound, lemma_floor_div_range, lemma_product_bound};
use vstd::prelude::*;

verus! {

/// The quantile of a trail field at which an image saturates: `0.999`.
pub const SATURATING_QUANTILE: i64 = 65470;

/// A saturation level with half as much again on top of it, rounded down:
/// where several populations share one image.
pub open spec fn spec_headroom(saturation: int) -> int {
    saturation + saturation / 2
}

/// How bright a cell is: its value as a share of the saturation level, kept
/// within `[0, UNIT]`. A field with nothing on it has saturation zero, and is
/// dark throughout.
pub open spec fn spec_exposure(value: int, saturation: int) -> int {
    if saturation <= 0 || value <= 0 {
        0
    } else if value >= saturation {
        UNIT as int
    } else {
        value * UNIT / saturation
    }
}

/// The gray level of a cell, between `0` and `255`.
pub open spec fn spec_gray_level(value: int, saturation: int) -> int {
    spec_exposure(value, saturation) * 255 / (UNIT as int)
}

/// Exposure lies in `[0, UNIT]`, and is `UNIT` at the saturation level and
/// above it.
pub proof fn lemma_exposure_range(value: int, saturation: int)
    ensures
        0 <= spec_exposure(value, saturation) <= UNIT,
        0 < saturation <= value ==> spec_exposure(value, saturation) == UNIT,
        saturation <= 0 ==> spec_exposure(value, saturation) == 0,
{
    if saturation > 0 && 0 < value < saturation {
        assert(0 <= value * UNIT <= UNIT * saturation) by (nonlinear_arith)
            requires
                0 < value < saturation,
                UNIT == 65536,
        ;
        lemma_floor_div_bound(value * UNIT, saturation, UNIT as int);
        lemma_floor_div_range(value * UNIT, saturation);
    }
}

/// A saturation level with half as much again on top of it.
pub fn headroom(saturation: i64) -> (raised: i128)
    ensures
        raised == spec_headroom(saturation as int),
{
    saturation as i128 + floor_div(saturation as i128, 2)
}

/// How bright a cell of the given value is under the given saturation level.
pub fn exposure(value: i64, saturation: i128) -> (share: i64)
    ensures
        share == spec_exposure(value as int, saturation as int),
        0 <= share <= UNIT,
{
    proof {
        lemma_exposure_range(value as int, saturation as int);
    }
    if saturation <= 0 || value <= 0 {
        0
    } else if value as i128 >= saturation {
        UNIT
    } else {
        floor_div((value as i128) * 65536, saturation) as i64
    }
}

/// The gray level of a cell of the given value under the given saturation
/// level.
pub fn gray_level(value: i64, saturation: i128) -> (level: u8)
    ensures
        level == spec_gray_level(value as int, saturation as int),
{
    let share = exposure(value, saturation);
    ((share as u64) * 255 / 65536) as u8
}

/// Whether `levels` is a tone curve: one corrected level in `[0, UNIT]` for
/// every exposure from `0` to `UNIT`.
pub open spec fn is_tone_curve(levels: Seq<int>) -> bool {
    &&& levels.len() == UNIT + 1
    &&& forall|t: int| 0 <= t < levels.len() ==> 0 <= #[trigger] levels[t] <= UNIT
}

/// The saturation level of a grid in a colour image: its saturating quantile
/// with headroom.
pub open spec fn spec_saturation(view: GridView) -> int {
    spec_headroom(view.quantile(SATURATING_QUANTILE as int))
}

/// The red, green or blue component of a colour, for channel `0`, `1` or `2`.
pub open spec fn spec_shade(color: (u8, u8, u8), channel: int) -> int {
    if channel == 0 {
        color.0 as int
    } else if channel == 1 {
        color.1 as int
    } else {
        color.2 as int
    }
}

/// How many populations take part in a colour image: those that have both a
/// grid and a colour.
pub open spec fn spec_layers(views: Seq<GridView>, colors: Seq<(u8, u8, u8)>) -> int {
    if views.len() <= colors.len() {
        views.len() as int
    } else {
        colors.len() as int
    }
}

/// The light that the first `count` populations add to one channel of one
/// pixel: for each, its colour's component times its corrected exposure.
pub open spec fn spec_light(
    views: Seq<GridView>,
    colors: Seq<(u8, u8, u8)>,
    curve: Seq<int>,
    cell: int,
    channel: int,
    count: int,
) -> int
    decreases count,
{
    if count <= 0 {
        0
    } else {
        spec_light(views, colors, curve, cell, channel, count - 1) + spec_shade(
            colors[count - 1],
            channel,
        ) * curve[spec_exposure(views[count - 1].field[cell], spec_saturation(views[count - 1]))]
    }
}

/// One channel of one pixel of a colour image: the light of all populations
/// that take part, as a whole number, at most `255`.
pub open spec fn spec_channel(
    views: Seq<GridView>,
    colors: Seq<(u8, u8, u8)>,
    curve: Seq<int>,
    cell: int,
    channel: int,
) -> int {
    let light = spec_light(views, colors, curve, cell, channel, spec_layers(views, colors)) / (
    UNIT as int);
    if light > 255 {
        255
    } else {
        light
    }
}

/// One pixel of the gray image of a grid: the gray level of the cell under
/// the saturating quantile of the field.
pub open spec fn spec_gray(view: GridView, cell: int) -> int {
    spec_gray_level(view.field[cell], view.quantile(SATURATING_QUANTILE as int))
}

/// The light of `count` populations is at most `count` times full light.
pub proof fn lemma_light_bound(
    views: Seq<GridView>,
    colors: Seq<(u8, u8, u8)>,
    curve: Seq<int>,
    cell: int,
    channel: int,
    count: int,
)
    requires
        is_tone_curve(curve),
        0 <= count,
    ensures
        0 <= spec_light(views, colors, curve, cell, channel, count) <= count * 0xff_0000,
    decreases count,
{
    if count > 0 {
        lemma_light_bound(views, colors, curve, cell, channel, count - 1);
        let view = views[count - 1];
        let at = spec_exposure(view.field[cell], spec_saturation(view));
        lemma_exposure_range(view.field[cell], spec_saturation(view));
        let shade = spec_shade(colors[count - 1], channel);
        assert(0 <= shade * curve[at] <= 255 * 65536) by (nonlinear_arith)
            requires
                0 <= shade <= 255,
                0 <= curve[at] <= 65536,
        ;
    }
}

/// The correction applied to exposure before it is turned into colour: a
/// table with one level for every exposure.
#[derive(Debug)]
pub struct ToneCurve {
    levels: Vec<i64>,
}

impl View for ToneCurve {
    type V = Seq<int>;

    closed spec fn view(&self) -> Seq<int> {
        ints_of(self.levels@)
    }
}

impl ToneCurve {
    /// The invariant of a tone curve.
    pub open spec fn wf(&self) -> bool {
        is_tone_curve(self@)
    }

    /// A tone curve from its levels, one for every exposure from `0` to
    /// `UNIT` in order. Refuses a table of another length and a level outside
    /// `[0, UNIT]`.
    pub fn new(levels: Vec<i64>) -> (made: Option<ToneCurve>)
        ensures
            made is Some <==> is_tone_curve(ints_of(levels@)),
            made matches Some(curve) ==> curve.wf() && curve@ == ints_of(levels@),
    {
        if levels.len() != 65537 {
            return None;
        }
        let mut t: usize = 0;
        while t < levels.len()
            invariant
                t <= levels.len(),
                levels.len() == UNIT + 1,
                forall|k: int| 0 <= k < t ==> 0 <= #[trigger] ints_of(levels@)[k] <= UNIT,
            decreases levels.len() - t,
        {
            if levels[t] < 0 || levels[t] > UNIT {
                assert(!(0 <= ints_of(levels@)[t as int] <= UNIT));
                return None;
            }
            t += 1;
        }
        Some(ToneCurve { levels })
    }

    /// The corrected level of an exposure.
    pub fn level(&self, exposure: i64) -> (level: i64)
        requires
            self.wf(),
            0 <= exposure <= UNIT,
        ensures
            level == self@[exposure as int],
            0 <= level <= UNIT,
    {
        assert(self@[exposure as int] == self.levels[exposure as int]);
        self.levels[exposure as usize]
    }
}

/// The gray image of one grid, a level for each cell in row-major order: the
/// cell's trail as a share of the saturating quantile of the field, from
/// black to white. A field with nothing on it gives a black image.
pub fn render_gray(grid: &Grid) -> (pixels: Vec<u8>)
    requires
        grid.wf(),
    ensures
        pixels.len() == grid@.field.len(),
        forall|c: int| 0 <= c < pixels.len() ==> #[trigger] pixels[c] == spec_gray(grid@, c),
{
    let saturation = grid.quantile(SATURATING_QUANTILE);
    let field = grid.data();
    let mut pixels: Vec<u8> = Vec::new();
    let mut c: usize = 0;
    while c < field.len()
        invariant
            c <= field.len(),
            ints_of(field@) == grid@.field,
            saturation == grid@.quantile(SATURATING_QUANTILE as int),
            pixels.len() == c,
            forall|k: int| 0 <= k < c ==> #[trigger] pixels[k] == spec_gray(grid@, k),
        decreases field.len() - c,
    {
        assert(ints_of(field@)[c as int] == field[c as int]);
        pixels.push(gray_level(field[c], saturation as i128));
        c += 1;
    }
    pixels
}

/// The saturation level of every grid.
fn saturations(grids: &Vec<Grid>) -> (levels: Vec<i128>)
    requires
        forall|p: int| 0 <= p < grids.len() ==> (#[trigger] grids[p])@.wf(),
    ensures
        levels.len() == grids.len(),
        forall|p: int| 0 <= p < grids.len() ==> #[trigger] levels[p] == spec_saturation(grids[p]@),
{
    let mut levels: Vec<i128> = Vec::new();
    let mut p: usize = 0;
    while p < grids.len()
        invariant
            p <= grids.len(),
            forall|k: int| 0 <= k < grids.len() ==> (#[trigger] grids[k])@.wf(),
            levels.len() == p,
            forall|k: int| 0 <= k < p ==> #[trigger] levels[k] == spec_saturation(grids[k]@),
        decreases grids.len() - p,
    {
        levels.push(headroom(grids[p].quantile(SATURATING_QUANTILE)));
        p += 1;
    }
    levels
}

/// One pixel of a colour image.
fn pixel(
    grids: &Vec<Grid>,
    levels: &Vec<i128>,
    colors: &Vec<(u8, u8, u8)>,
    curve: &ToneCurve,
    cell: usize,
) -> (color: (u8, u8, u8))
    requires
        is_grid_set(grid_views(grids@)),
        grids.len() > 0,
        curve.wf(),
        cell < grids[0]@.field.len(),
        levels.len() == grids.len(),
        forall|p: int| 0 <= p < grids.len() ==> #[trigger] levels[p] == spec_saturation(grids[p]@),
    ensures
        color.0 == spec_channel(grid_views(grids@), colors@, curve@, cell as int, 0),
        color.1 == spec_channel(grid_views(grids@), colors@, curve@, cell as int, 1),
        color.2 == spec_channel(grid_views(grids@), colors@, curve@, cell as int, 2),
{
    let ghost views = grid_views(grids@);
    let layers = if grids.len() <= colors.len() {
        grids.len()
    } else {
        colors.len()
    };
    let mut red: u128 = 0;
    let mut green: u128 = 0;
    let mut blue: u128 = 0;
    let mut p: usize = 0;
    while p < layers
        invariant
            p <= layers,
            layers == spec_layers(views, colors@),
            views == grid_views(grids@),
            is_grid_set(views),
            grids.len() > 0,
            curve.wf(),
            cell < views[0].field.len(),
            levels.len() == grids.len(),
            forall|k: int|
                0 <= k < grids.len() ==> #[trigger] levels[k] == spec_saturation(grids[k]@),
            red == spec_light(views, colors@, curve@, cell as int, 0, p as int),
            green == spec_light(views, colors@, curve@, cell as int, 1, p as int),
            blue == spec_light(views, colors@, curve@, cell as int, 2, p as int),
        decreases layers - p,
    {
        let field = grids[p].data();
        proof {
            assert(views[p as int] == grids[p as int]@);
            assert(views[p as int].wf() && views[0].wf());
            assert(ints_of(field@)[cell as int] == field[cell as int]);
            lemma_light_bound(views, colors@, curve@, cell as int, 0, p as int);
            lemma_light_bound(views, colors@, curve@, cell as int, 1, p as int);
            lemma_light_bound(views, colors@, curve@, cell as int, 2, p as int);
            lemma_light_bound(views, colors@, curve@, cell as int, 0, p + 1);
            lemma_light_bound(views, colors@, curve@, cell as int, 1, p + 1);
            lemma_light_bound(views, colors@, curve@, cell as int, 2, p + 1);
        }
        let level = curve.level(exposure(field[cell], levels[p])) as u128;
        let color = colors[p];
        proof {
            lemma_product_bound(color.0 as int, level as int, 255, 65536);
            lemma_product_bound(color.1 as int, level as int, 255, 65536);
            lemma_product_bound(color.2 as int, level as int, 255, 65536);
        }
        red = red + (color.0 as u128) * level;
        green = green + (color.1 as u128) * level;
        blue = blue + (color.2 as u128) * level;
        p += 1;
    }
    (whole_light(red), whole_light(green), whole_light(blue))
}

/// Light as a whole number, at most `255`.
fn whole_light(light: u128) -> (whole: u8)
    ensures
        whole == (if (light as int) / (UNIT as int) > 255 {
            255
        } else {
            (light as int) / (UNIT as int)
        }),
{
    let scaled = light / 65536;
    if scaled > 255 {
        255
    } else {
        scaled as u8
    }
}

/// The colour image of a set of grids, a pixel for each cell in row-major
/// order. Population `p` takes part with colour `p`, as far as there are both
/// grids and colours. For each, the exposure of the cell under the grid's
/// saturation level goes through the tone curve and weighs the colour; each
/// channel is the sum of what the populations add, at most `255`.
pub fn render(grids: &Vec<Grid>, colors: &Vec<(u8, u8, u8)>, curve: &ToneCurve) -> (pixels: Vec<
    (u8, u8, u8),
>)
    requires
        is_grid_set(grid_views(grids@)),
        grids.len() > 0,
        curve.wf(),
    ensures
        pixels.len() == grids[0]@.field.len(),
        forall|c: int|
            0 <= c < pixels.len() ==> {
                &&& (#[trigger] pixels[c]).0 == spec_channel(
                    grid_views(grids@),
                    colors@,
                    curve@,
                    c,
                    0,
                )
                &&& pixels[c].1 == spec_channel(grid_views(grids@), colors@, curve@, c, 1)
                &&& pixels[c].2 == spec_channel(grid_views(grids@), colors@, curve@, c, 2)
            },
{
    let ghost views = grid_views(grids@);
    proof {
        assert forall|p: int| 0 <= p < grids.len() implies (#[trigger] grids[p])@.wf() by {
            assert(views[p].wf());
        }
        assert(views[0] == grids[0]@);
    }
    let levels = saturations(grids);
    let cells = grids[0].data().len();
    let mut pixels: Vec<(u8, u8, u8)> = Vec::new();
    let mut c: usize = 0;
    while c < cells
        invariant
            c <= cells,
            cells == grids[0]@.field.len(),
            views == grid_views(grids@),
            is_grid_set(views),
            grids.len() > 0,
            curve.wf(),
            levels.len() == grids.len(),
            forall|p: int|
                0 <= p < grids.len() ==> #[trigger] levels[p] == spec_saturation(grids[p]@),
            pixels.len() == c,
            forall|k: int|
                0 <= k < c ==> {
                    &&& (#[trigger] pixels[k]).0 == spec_channel(views, colors@, curve@, k, 0)
                    &&& pixels[k].1 == spec_channel(views, colors@, curve@, k, 1)
                    &&& pixels[k].2 == spec_channel(views, colors@, curve@, k, 2)
                },
        decreases cells - c,
    {
        pixels.push(pixel(grids, &levels, colors, curve, c));
        c += 1;
    }
    pixels
}

} // verus!
