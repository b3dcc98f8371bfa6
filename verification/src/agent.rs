//! An agent: a point on the torus with a heading, which senses the read
//! buffer of its population ahead of itself, turns toward the stronger
//! reading and moves one step.

use crate::compass::{is_compass_table, spec_rotate, Compass};
use crate::config::MAX_SIDE;
use crate::grid::{lemma_sample_flat, Grid, GridView};
use crate::random::uniform_below;
use crate::steering::{choose_direction, spec_pick_direction};
use crate::util::{scale, wrap, UNIT};
use crate::util::{lemma_floor_div_bound, lemma_product_bound, lemma_product_fits};
use crate::util::{lemma_wrap_range, spec_scale, spec_wrap};
use vstd::prelude::*;

verus! {

/// What an agent is, mathematically: a position in fixed-point cells, a
/// heading of the compass and the population it belongs to.
pub struct AgentView {
    pub x: int,
    pub y: int,
    pub heading: int,
    pub population: int,
}

/// The coordinate reached from `from` by going `distance` along a direction
/// whose component on this axis is `component`, on a torus of `side` cells.
pub open spec fn spec_advance(from: int, distance: int, component: int, side: int) -> int {
    spec_wrap(from + spec_scale(distance, component), side * UNIT)
}

impl AgentView {
    /// The toroidal invariant: the position lies on the grid and the heading
    /// within the turn.
    pub open spec fn in_bounds(self, width: int, height: int, turn: int) -> bool {
        &&& 0 <= self.x < width * UNIT
        &&& 0 <= self.y < height * UNIT
        &&& 0 <= self.heading < turn
    }

    /// The point `distance` ahead of the agent along the heading `offset`
    /// steps round from its own.
    pub open spec fn probe(
        self,
        offset: int,
        distance: int,
        width: int,
        height: int,
        compass: Seq<(int, int)>,
    ) -> (int, int) {
        let heading = spec_rotate(self.heading, offset, compass.len() as int);
        (
            spec_advance(self.x, distance, compass[heading].0, width),
            spec_advance(self.y, distance, compass[heading].1, height),
        )
    }

    /// What the centre, left and right sensors read on a grid.
    pub open spec fn sensed(self, grid: GridView, compass: Seq<(int, int)>) -> (int, int, int) {
        let distance = grid.config.sensor_distance as int;
        let angle = grid.config.sensor_angle as int;
        let center = self.probe(0, distance, grid.width, grid.height, compass);
        let left = self.probe(-angle, distance, grid.width, grid.height, compass);
        let right = self.probe(angle, distance, grid.width, grid.height, compass);
        (
            grid.sample(center.0, center.1),
            grid.sample(left.0, left.1),
            grid.sample(right.0, right.1),
        )
    }

    /// The agent after it turned by `rotation * direction` headings and then
    /// moved `step` along its new heading.
    pub open spec fn moved(
        self,
        direction: int,
        rotation: int,
        step: int,
        width: int,
        height: int,
        compass: Seq<(int, int)>,
    ) -> AgentView {
        let heading = spec_rotate(self.heading, rotation * direction, compass.len() as int);
        AgentView {
            x: spec_advance(self.x, step, compass[heading].0, width),
            y: spec_advance(self.y, step, compass[heading].1, height),
            heading,
            population: self.population,
        }
    }

    /// The agent after one round of sensing, turning and moving on a grid,
    /// with the given tie-break.
    pub open spec fn steered(self, grid: GridView, compass: Seq<(int, int)>, tie_break: bool) -> AgentView {
        let read = self.sensed(grid, compass);
        self.moved(
            spec_pick_direction(read.0, read.1, read.2, tie_break),
            grid.config.rotation_angle as int,
            grid.config.step_distance as int,
            grid.width,
            grid.height,
            compass,
        )
    }
}

/// Wherever it started, an agent that has moved stands on the grid and faces
/// a heading of the compass, and belongs to the population it belonged to.
pub proof fn lemma_moved_in_bounds(
    agent: AgentView,
    direction: int,
    rotation: int,
    step: int,
    width: int,
    height: int,
    compass: Seq<(int, int)>,
)
    requires
        0 < width,
        0 < height,
        compass.len() > 0,
    ensures
        agent.moved(direction, rotation, step, width, height, compass).in_bounds(
            width,
            height,
            compass.len() as int,
        ),
        agent.moved(direction, rotation, step, width, height, compass).population
            == agent.population,
{
    let heading = spec_rotate(agent.heading, rotation * direction, compass.len() as int);
    lemma_wrap_range(agent.heading + rotation * direction, compass.len() as int);
    lemma_wrap_range(agent.x + spec_scale(step, compass[heading].0), width * UNIT);
    lemma_wrap_range(agent.y + spec_scale(step, compass[heading].1), height * UNIT);
}

/// The toroidal invariant of a step: wherever it started and whatever the
/// tie-break, an agent that was steered on a grid stands on that grid and
/// faces a heading of the compass.
pub proof fn lemma_steered_in_bounds(
    agent: AgentView,
    grid: GridView,
    compass: Seq<(int, int)>,
    tie_break: bool,
)
    requires
        grid.wf(),
        is_compass_table(compass),
    ensures
        agent.steered(grid, compass, tie_break).in_bounds(
            grid.width,
            grid.height,
            compass.len() as int,
        ),
        agent.steered(grid, compass, tie_break).population == agent.population,
{
    let read = agent.sensed(grid, compass);
    lemma_moved_in_bounds(
        agent,
        spec_pick_direction(read.0, read.1, read.2, tie_break),
        grid.config.rotation_angle as int,
        grid.config.step_distance as int,
        grid.width,
        grid.height,
        compass,
    );
}

/// Where the read buffer holds one value everywhere, the sensors agree and
/// the agent goes straight: it keeps its heading and moves one step along it,
/// whatever the tie-break.
pub proof fn lemma_flat_buffer_goes_straight(
    agent: AgentView,
    grid: GridView,
    compass: Seq<(int, int)>,
    tie_break: bool,
    value: int,
)
    requires
        grid.wf(),
        is_compass_table(compass),
        forall|c: int| 0 <= c < grid.buffer.len() ==> #[trigger] grid.buffer[c] == value,
    ensures
        agent.steered(grid, compass, tie_break) == agent.moved(
            0,
            0,
            grid.config.step_distance as int,
            grid.width,
            grid.height,
            compass,
        ),
        0 <= agent.heading < compass.len() ==> agent.steered(grid, compass, tie_break).heading
            == agent.heading,
{
    let distance = grid.config.sensor_distance as int;
    let angle = grid.config.sensor_angle as int;
    let center = agent.probe(0, distance, grid.width, grid.height, compass);
    let left = agent.probe(-angle, distance, grid.width, grid.height, compass);
    let right = agent.probe(angle, distance, grid.width, grid.height, compass);
    lemma_sample_flat(grid.buffer, grid.width, grid.height, center.0, center.1, value);
    lemma_sample_flat(grid.buffer, grid.width, grid.height, left.0, left.1, value);
    lemma_sample_flat(grid.buffer, grid.width, grid.height, right.0, right.1, value);
    let rotation = grid.config.rotation_angle as int;
    assert(rotation * 0 == 0 && 0 * 0 == 0) by (nonlinear_arith);
    lemma_wrap_range(agent.heading, compass.len() as int);
}

/// One agent.
#[derive(Clone, Copy, Debug)]
pub struct Agent {
    x: i64,
    y: i64,
    heading: usize,
    population_id: usize,
}

impl View for Agent {
    type V = AgentView;

    closed spec fn view(&self) -> AgentView {
        AgentView {
            x: self.x as int,
            y: self.y as int,
            heading: self.heading as int,
            population: self.population_id as int,
        }
    }
}

/// The coordinate reached from `from` by going `distance` along a direction
/// whose component on this axis is `component`.
fn advance(from: i64, distance: i64, component: i64, side: usize) -> (to: i64)
    requires
        0 < side <= MAX_SIDE,
    ensures
        to == spec_advance(from as int, distance as int, component as int, side as int),
        0 <= to < side * UNIT,
{
    let span: i128 = (side as i128) * 65536;
    let shift = scale(distance, component);
    proof {
        lemma_product_fits(distance as int, component as int);
        lemma_floor_div_bound(
            distance * component,
            UNIT as int,
            0x4000_0000_0000_0000_0000_0000_0000,
        );
    }
    wrap(from as i128 + shift, span) as i64
}

impl Agent {
    /// An agent at a random point of a grid of the given size, facing a random
    /// heading of a compass of `turn` headings.
    pub fn new(width: usize, height: usize, id: usize, turn: usize) -> (agent: Agent)
        requires
            0 < width <= MAX_SIDE,
            0 < height <= MAX_SIDE,
            0 < turn,
        ensures
            agent@.in_bounds(width as int, height as int, turn as int),
            agent@.population == id,
    {
        let x = uniform_below((width as u64) * 65536);
        let y = uniform_below((height as u64) * 65536);
        let heading = uniform_below(turn as u64);
        Agent { x: x as i64, y: y as i64, heading: heading as usize, population_id: id }
    }

    /// An agent at the given point, facing the given heading.
    pub fn at(x: i64, y: i64, heading: usize, population_id: usize) -> (agent: Agent)
        ensures
            agent@ == (AgentView {
                x: x as int,
                y: y as int,
                heading: heading as int,
                population: population_id as int,
            }),
    {
        Agent { x, y, heading, population_id }
    }

    /// The horizontal position, in fixed-point cells.
    pub fn x(&self) -> (x: i64)
        ensures
            x == self@.x,
    {
        self.x
    }

    /// The vertical position, in fixed-point cells.
    pub fn y(&self) -> (y: i64)
        ensures
            y == self@.y,
    {
        self.y
    }

    /// The heading, as an index into the compass.
    pub fn heading(&self) -> (heading: usize)
        ensures
            heading == self@.heading,
    {
        self.heading
    }

    /// The population the agent belongs to.
    pub fn population_id(&self) -> (id: usize)
        ensures
            id == self@.population,
    {
        self.population_id
    }

    /// Turns the agent by `rotation_angle * direction` headings, wrapping
    /// within the turn, and moves it `step_distance` along its new heading,
    /// wrapping on the grid.
    pub fn rotate_and_move(
        &mut self,
        direction: i8,
        rotation_angle: usize,
        step_distance: i64,
        width: usize,
        height: usize,
        compass: &Compass,
    )
        requires
            0 < width <= MAX_SIDE,
            0 < height <= MAX_SIDE,
            compass.wf(),
        ensures
            final(self)@ == old(self)@.moved(
                direction as int,
                rotation_angle as int,
                step_distance as int,
                width as int,
                height as int,
                compass@,
            ),
            final(self)@.in_bounds(width as int, height as int, compass@.len() as int),
    {
        proof {
            lemma_product_bound(
                rotation_angle as int,
                direction as int,
                0x1_0000_0000_0000_0000,
                0x80,
            );
        }
        let turn: i128 = (rotation_angle as i128) * (direction as i128);
        let heading = compass.rotate(self.heading, turn);
        let toward = compass.direction(heading);
        self.x = advance(self.x, step_distance, toward.0, width);
        self.y = advance(self.y, step_distance, toward.1, height);
        self.heading = heading;
    }

    /// The point `distance` ahead of the agent along the heading `offset`
    /// steps round from its own, wrapped onto the grid.
    fn probe(&self, offset: i128, distance: i64, width: usize, height: usize, compass: &Compass) -> (point:
        (i64, i64))
        requires
            0 < width <= MAX_SIDE,
            0 < height <= MAX_SIDE,
            compass.wf(),
            -0x1_0000_0000_0000_0000 <= offset <= 0x1_0000_0000_0000_0000,
        ensures
            (point.0 as int, point.1 as int) == self@.probe(
                offset as int,
                distance as int,
                width as int,
                height as int,
                compass@,
            ),
    {
        let heading = compass.rotate(self.heading, offset);
        let toward = compass.direction(heading);
        (
            advance(self.x, distance, toward.0, width),
            advance(self.y, distance, toward.1, height),
        )
    }

    /// What the centre, left and right sensors of the agent read on a grid.
    pub fn sense(&self, grid: &Grid, compass: &Compass) -> (read: (i128, i128, i128))
        requires
            grid.wf(),
            compass.wf(),
        ensures
            (read.0 as int, read.1 as int, read.2 as int) == self@.sensed(grid@, compass@),
    {
        let config = grid.config();
        let width = grid.width();
        let height = grid.height();
        let angle = config.sensor_angle as i128;
        let center = self.probe(0, config.sensor_distance, width, height, compass);
        let left = self.probe(-angle, config.sensor_distance, width, height, compass);
        let right = self.probe(angle, config.sensor_distance, width, height, compass);
        (
            grid.sample(center.0, center.1),
            grid.sample(left.0, left.1),
            grid.sample(right.0, right.1),
        )
    }

    /// One round for the agent on the grid of its population: it senses, picks
    /// a direction, flipping a coin where the sensors leave it undecided, then
    /// turns and moves. Whatever the coin shows, the agent ends as the rule
    /// says for one of the two tie-breaks.
    pub fn steer(&mut self, grid: &Grid, compass: &Compass)
        requires
            grid.wf(),
            compass.wf(),
        ensures
            is_steered(old(self)@, grid@, compass@, final(self)@),
    {
        let read = self.sense(grid, compass);
        let direction = choose_direction(read.0, read.1, read.2);
        let config = grid.config();
        self.rotate_and_move(
            direction,
            config.rotation_angle,
            config.step_distance,
            grid.width(),
            grid.height(),
            compass,
        );
    }
}

/// Whether `after` is what one round of sensing, turning and moving on `grid`
/// makes of `before`, for one of the two tie-breaks.
pub open spec fn is_steered(
    before: AgentView,
    grid: GridView,
    compass: Seq<(int, int)>,
    after: AgentView,
) -> bool {
    after == before.steered(grid, compass, true) || after == before.steered(grid, compass, false)
}

/// One round for an agent among the grids of all populations: it is steered
/// on the grid of its own.
pub fn steer_among(agent: &mut Agent, grids: &Vec<Grid>, compass: &Compass)
    requires
        old(agent)@.population < grids.len(),
        grids[old(agent)@.population]@.wf(),
        compass.wf(),
    ensures
        is_steered(old(agent)@, grids[old(agent)@.population]@, compass@, final(agent)@),
{
    let id = agent.population_id();
    agent.steer(&grids[id], compass);
}

} // verus!
