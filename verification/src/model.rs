//! The simulation: the agents of all populations, one grid for each
//! population, the table that couples them, and the step that moves it on.

use crate::agent::{is_steered, lemma_steered_in_bounds, Agent, AgentView};
use crate::compass::{is_compass_table, table_of, Compass};
use crate::config::{ConfigError, PopulationConfig, MAX_DIFFUSIVITY, MAX_SIDE, WEIGHT_MAX};
use crate::grid::{combine, combined_views, grid_views, is_grid_set, is_grid_size};
use crate::grid::{rows_of, Grid, GridView};
use crate::mixing::{is_attraction_table, is_weight_row};
use crate::parallel::{diffuse_all, steer_all};
use crate::util::UNIT;
use vstd::arithmetic::div_mod::*;
use vstd::prelude::*;

verus! {

/// What a model is, mathematically.
pub struct ModelView {
    pub agents: Seq<AgentView>,
    /// One grid for each population, in order of population.
    pub grids: Seq<GridView>,
    /// Row `i`, column `j`: how strongly population `i` is drawn to the trail
    /// of population `j`.
    pub attraction_table: Seq<Seq<int>>,
    pub diffusivity: int,
    pub iteration: int,
    pub compass: Seq<(int, int)>,
    /// The steps kept for rendering, oldest first.
    pub snapshots: Seq<SnapshotView>,
}

/// What is kept of one step, mathematically: the grids as they were after it,
/// and how many steps had been taken.
pub struct SnapshotView {
    pub grids: Seq<GridView>,
    pub iteration: int,
}

/// What is kept of one step for rendering later.
#[derive(Debug)]
pub struct Snapshot {
    grids: Vec<Grid>,
    iteration: u64,
}

impl View for Snapshot {
    type V = SnapshotView;

    closed spec fn view(&self) -> SnapshotView {
        SnapshotView { grids: grid_views(self.grids@), iteration: self.iteration as int }
    }
}

impl Snapshot {
    /// The grids as they were when the snapshot was taken.
    pub fn grids(&self) -> (grids: &Vec<Grid>)
        ensures
            grid_views(grids@) == self@.grids,
    {
        &self.grids
    }

    /// How many steps the model had taken when the snapshot was taken.
    pub fn iteration(&self) -> (steps: u64)
        ensures
            steps == self@.iteration,
    {
        self.iteration
    }
}

/// The snapshots of a model, each as what it is mathematically.
pub open spec fn snapshot_views(snapshots: Seq<Snapshot>) -> Seq<SnapshotView> {
    snapshots.map_values(|snapshot: Snapshot| snapshot@)
}

/// The agents of a model, each as what it is mathematically.
pub open spec fn agent_views(agents: Seq<Agent>) -> Seq<AgentView> {
    agents.map_values(|agent: Agent| agent@)
}

/// How many agents each population gets when `particles` agents are asked
/// for: their share, rounded up.
pub open spec fn spec_share(particles: int, populations: int) -> int {
    (particles + populations - 1) / populations
}

/// Whether the agents are shared evenly among the populations, population by
/// population in order.
pub open spec fn is_agent_layout(agents: Seq<AgentView>, populations: int) -> bool {
    &&& agents.len() % (populations as nat) == 0
    &&& forall|i: int|
        0 <= i < agents.len() ==> (#[trigger] agents[i]).population == i / (agents.len()
            / (populations as nat)) as int
}

/// Whether every agent belongs to one of the populations, stands on the grid
/// and faces a heading of the compass.
pub open spec fn are_agents_placed(
    agents: Seq<AgentView>,
    populations: int,
    width: int,
    height: int,
    turn: int,
) -> bool {
    forall|i: int|
        0 <= i < agents.len() ==> {
            &&& 0 <= (#[trigger] agents[i]).population < populations
            &&& agents[i].in_bounds(width, height, turn)
        }
}

/// A grid after the first `count` agents left their trail, those of
/// population `population` that is: each on the cell nearest to it, in order.
pub open spec fn deposited_by(grid: GridView, agents: Seq<AgentView>, population: int, count: int) -> GridView
    decreases count,
{
    if count <= 0 {
        grid
    } else {
        let before = deposited_by(grid, agents, population, count - 1);
        if agents[count - 1].population == population {
            before.deposited(agents[count - 1].x, agents[count - 1].y)
        } else {
            before
        }
    }
}

/// The grids after every agent left its trail on the grid of its population
/// and every grid then diffused.
pub open spec fn settled(grids: Seq<GridView>, agents: Seq<AgentView>, radius: int) -> Seq<GridView> {
    Seq::new(
        grids.len(),
        |p: int| deposited_by(grids[p], agents, p, agents.len() as int).diffused(radius),
    )
}

/// Deposits change the trail field of a grid and nothing else about it.
pub proof fn lemma_deposited_by_frame(
    grid: GridView,
    agents: Seq<AgentView>,
    population: int,
    count: int,
)
    ensures
        deposited_by(grid, agents, population, count).width == grid.width,
        deposited_by(grid, agents, population, count).height == grid.height,
        deposited_by(grid, agents, population, count).buffer == grid.buffer,
        deposited_by(grid, agents, population, count).config == grid.config,
    decreases count,
{
    if count > 0 {
        lemma_deposited_by_frame(grid, agents, population, count - 1);
    }
}

impl ModelView {
    /// The width of the grids.
    pub open spec fn width(self) -> int {
        self.grids[0].width
    }

    /// The height of the grids.
    pub open spec fn height(self) -> int {
        self.grids[0].height
    }

    /// The invariant of a model.
    pub open spec fn wf(self) -> bool {
        &&& self.grids.len() > 0
        &&& is_grid_set(self.grids)
        &&& is_attraction_table(self.attraction_table, self.grids.len() as int)
        &&& 0 <= self.diffusivity <= MAX_DIFFUSIVITY
        &&& 0 <= self.iteration
        &&& is_compass_table(self.compass)
        &&& is_agent_layout(self.agents, self.grids.len() as int)
        &&& are_agents_placed(
            self.agents,
            self.grids.len() as int,
            self.width(),
            self.height(),
            self.compass.len() as int,
        )
    }

    /// The grids as the agents sense them in the next step: each read buffer
    /// refreshed from the trail fields of all populations.
    pub open spec fn sensing(self) -> Seq<GridView> {
        combined_views(self.grids, self.attraction_table)
    }
}

/// Shares of equal size divide their total evenly.
pub proof fn lemma_even_shares(share: int, populations: int)
    requires
        0 <= share,
        0 < populations,
    ensures
        (share * populations) % populations == 0,
        (share * populations) / populations == share,
{
    lemma_fundamental_div_mod_converse(
        share * populations,
        populations,
        share,
        0,
    );
}

/// The toroidal invariant: in a well-formed model, and so after every step,
/// every agent stands on the grid and faces a heading of the compass.
pub proof fn lemma_toroidal_invariant(model: ModelView, i: int)
    requires
        model.wf(),
        0 <= i < model.agents.len(),
    ensures
        0 <= model.agents[i].x < model.width() * UNIT,
        0 <= model.agents[i].y < model.height() * UNIT,
        0 <= model.agents[i].heading < model.compass.len(),
        0 <= model.agents[i].population < model.grids.len(),
{
}

/// The simulation.
#[derive(Debug)]
pub struct Model {
    agents: Vec<Agent>,
    grids: Vec<Grid>,
    attraction_table: Vec<Vec<i64>>,
    diffusivity: usize,
    iteration: u64,
    compass: Compass,
    img_data_vec: Vec<Snapshot>,
}

impl View for Model {
    type V = ModelView;

    closed spec fn view(&self) -> ModelView {
        ModelView {
            agents: agent_views(self.agents@),
            grids: grid_views(self.grids@),
            attraction_table: rows_of(self.attraction_table@),
            diffusivity: self.diffusivity as int,
            iteration: self.iteration as int,
            compass: self.compass@,
            snapshots: snapshot_views(self.img_data_vec@),
        }
    }
}

/// Whether a table has `count` rows of `count` entries each.
pub open spec fn is_square(table: Seq<Seq<int>>, count: int) -> bool {
    &&& table.len() == count
    &&& forall|i: int| 0 <= i < table.len() ==> (#[trigger] table[i]).len() == count
}

/// Tests an attraction table for `count` populations: its shape first, then
/// its weights.
fn check_table(table: &Vec<Vec<i64>>, count: usize) -> (fault: Option<ConfigError>)
    ensures
        fault is None <==> is_attraction_table(rows_of(table@), count as int),
        fault matches Some(e) ==> e == (if is_square(rows_of(table@), count as int) {
            ConfigError::WeightOutOfRange
        } else {
            ConfigError::TableShape
        }),
{
    let ghost rows = rows_of(table@);
    if table.len() != count {
        return Some(ConfigError::TableShape);
    }
    let mut i: usize = 0;
    while i < count
        invariant
            i <= count,
            count == table.len(),
            rows == rows_of(table@),
            forall|k: int| 0 <= k < i ==> (#[trigger] rows[k]).len() == count,
        decreases count - i,
    {
        if table[i].len() != count {
            assert(rows[i as int].len() != count);
            return Some(ConfigError::TableShape);
        }
        i += 1;
    }
    assert(is_square(rows, count as int));
    let mut i: usize = 0;
    while i < count
        invariant
            i <= count,
            count == table.len(),
            rows == rows_of(table@),
            is_square(rows, count as int),
            forall|k: int| 0 <= k < i ==> is_weight_row(#[trigger] rows[k], count as int),
        decreases count - i,
    {
        let mut j: usize = 0;
        while j < count
            invariant
                i < count,
                j <= count,
                count == table.len(),
                rows == rows_of(table@),
                is_square(rows, count as int),
                forall|k: int|
                    0 <= k < j ==> -(WEIGHT_MAX as int) <= #[trigger] rows[i as int][k]
                        <= WEIGHT_MAX as int,
            decreases count - j,
        {
            assert(rows[i as int].len() == count);
            let w = table[i][j];
            assert(rows[i as int][j as int] == w);
            if w < -WEIGHT_MAX || w > WEIGHT_MAX {
                assert(!is_weight_row(rows[i as int], count as int));
                return Some(ConfigError::WeightOutOfRange);
            }
            j += 1;
        }
        assert(rows[i as int].len() == count);
        i += 1;
    }
    None
}

/// Whether every grid of a set has the size of the first.
pub open spec fn is_one_size(views: Seq<GridView>) -> bool {
    forall|p: int|
        0 <= p < views.len() ==> (#[trigger] views[p]).width == views[0].width && views[p].height
            == views[0].height
}

/// Whether every configuration lies within the limits of the model.
pub open spec fn are_valid(configs: Seq<PopulationConfig>) -> bool {
    forall|p: int| 0 <= p < configs.len() ==> (#[trigger] configs[p]).wf()
}

/// Why a model cannot be built from these parameters, if it cannot: the first
/// of the faults, in the order in which they are looked for.
pub open spec fn spec_new_fault(
    width: int,
    height: int,
    particles: int,
    populations: int,
    diffusivity: int,
    configs: Seq<PopulationConfig>,
    table: Seq<Seq<int>>,
    compass: Seq<(int, int)>,
) -> Option<ConfigError> {
    if populations == 0 {
        Some(ConfigError::NoPopulations)
    } else if width == 0 || height == 0 {
        Some(ConfigError::EmptyGrid)
    } else if !is_grid_size(width, height) {
        Some(ConfigError::GridTooLarge)
    } else if configs.len() != populations {
        Some(ConfigError::PopulationCount)
    } else if !are_valid(configs) {
        Some(ConfigError::InvalidPopulation)
    } else if !is_square(table, populations) {
        Some(ConfigError::TableShape)
    } else if !is_attraction_table(table, populations) {
        Some(ConfigError::WeightOutOfRange)
    } else if diffusivity > MAX_DIFFUSIVITY {
        Some(ConfigError::DiffusivityTooLarge)
    } else if !is_compass_table(compass) {
        Some(ConfigError::InvalidCompass)
    } else if spec_share(particles, populations) * populations > usize::MAX {
        Some(ConfigError::TooManyParticles)
    } else {
        None
    }
}

/// Why a model cannot be assembled from these parts, if it cannot: the first
/// of the faults, in the order in which they are looked for.
pub open spec fn spec_parts_fault(
    agents: Seq<AgentView>,
    grids: Seq<GridView>,
    table: Seq<Seq<int>>,
    diffusivity: int,
    compass: Seq<(int, int)>,
) -> Option<ConfigError> {
    if grids.len() == 0 {
        Some(ConfigError::NoPopulations)
    } else if !is_one_size(grids) {
        Some(ConfigError::GridMismatch)
    } else if !is_square(table, grids.len() as int) {
        Some(ConfigError::TableShape)
    } else if !is_attraction_table(table, grids.len() as int) {
        Some(ConfigError::WeightOutOfRange)
    } else if diffusivity > MAX_DIFFUSIVITY {
        Some(ConfigError::DiffusivityTooLarge)
    } else if !is_agent_layout(agents, grids.len() as int) || !are_agents_placed(
        agents,
        grids.len() as int,
        grids[0].width,
        grids[0].height,
        compass.len() as int,
    ) {
        Some(ConfigError::AgentLayout)
    } else {
        None
    }
}

/// Tests every configuration against the limits of the model.
fn check_configs(configs: &Vec<PopulationConfig>) -> (valid: bool)
    ensures
        valid == are_valid(configs@),
{
    let mut p: usize = 0;
    while p < configs.len()
        invariant
            p <= configs.len(),
            forall|k: int| 0 <= k < p ==> (#[trigger] configs[k]).wf(),
        decreases configs.len() - p,
    {
        if !configs[p].is_valid() {
            return false;
        }
        p += 1;
    }
    true
}

/// Tests whether every grid has the size of the first.
fn check_sizes(grids: &Vec<Grid>) -> (same: bool)
    requires
        grids.len() > 0,
    ensures
        same == is_one_size(grid_views(grids@)),
{
    let ghost views = grid_views(grids@);
    let width = grids[0].width();
    let height = grids[0].height();
    let mut p: usize = 0;
    while p < grids.len()
        invariant
            p <= grids.len(),
            grids.len() > 0,
            views == grid_views(grids@),
            width == views[0].width,
            height == views[0].height,
            forall|k: int|
                0 <= k < p ==> (#[trigger] views[k]).width == width && views[k].height == height,
        decreases grids.len() - p,
    {
        assert(views[p as int] == grids[p as int]@);
        if grids[p].width() != width || grids[p].height() != height {
            return false;
        }
        p += 1;
    }
    true
}

/// Tests whether the agents are shared evenly among the populations in order,
/// and whether each stands on the grid and faces a heading of the compass.
fn check_agents(agents: &Vec<Agent>, populations: usize, width: usize, height: usize, turn: usize) -> (placed:
    bool)
    requires
        populations > 0,
        0 < width <= MAX_SIDE,
        0 < height <= MAX_SIDE,
    ensures
        placed == (is_agent_layout(agent_views(agents@), populations as int) && are_agents_placed(
            agent_views(agents@),
            populations as int,
            width as int,
            height as int,
            turn as int,
        )),
{
    let ghost views = agent_views(agents@);
    let count = agents.len();
    if count % populations != 0 {
        return false;
    }
    let share = count / populations;
    let right: i64 = (width as i64) * 65536;
    let top: i64 = (height as i64) * 65536;
    let mut i: usize = 0;
    while i < count
        invariant
            i <= count,
            count == agents.len(),
            views == agent_views(agents@),
            populations > 0,
            count % populations == 0,
            share == count / populations,
            right == width * UNIT,
            top == height * UNIT,
            forall|k: int|
                0 <= k < i ==> {
                    &&& (#[trigger] views[k]).population == k / (share as int)
                    &&& 0 <= views[k].population < populations
                    &&& views[k].in_bounds(width as int, height as int, turn as int)
                },
        decreases count - i,
    {
        let agent = agents[i];
        assert(views[i as int] == agent@);
        assert(share > 0) by (nonlinear_arith)
            requires
                i < count,
                share == count / populations,
                count % populations == 0,
                populations > 0,
        ;
        if agent.population_id() != i / share || agent.population_id() >= populations || agent.x()
            < 0 || agent.x() >= right || agent.y() < 0 || agent.y() >= top || agent.heading()
            >= turn {
            return false;
        }
        i += 1;
    }
    true
}

/// How many agents each population gets, and how many that makes in all,
/// where they can be counted.
fn share_out(particles: usize, populations: usize) -> (shares: Option<(usize, usize)>)
    requires
        populations > 0,
    ensures
        shares is Some <==> spec_share(particles as int, populations as int) * populations
            <= usize::MAX,
        shares matches Some((share, total)) ==> share == spec_share(
            particles as int,
            populations as int,
        ) && total == share * populations,
{
    let wide: u128 = (particles as u128 + populations as u128 - 1) / (populations as u128);
    proof {
        let asked = particles + populations - 1;
        lemma_fundamental_div_mod(asked, populations as int);
        lemma_mod_bound(asked, populations as int);
        assert(wide * populations == populations * wide) by (nonlinear_arith);
        assert(0 <= wide * populations <= asked);
    }
    let total: u128 = wide * (populations as u128);
    if total > usize::MAX as u128 {
        None
    } else {
        assert(wide <= total) by (nonlinear_arith)
            requires
                total == wide * populations,
                populations >= 1,
                wide >= 0,
        ;
        Some((wide as usize, total as usize))
    }
}

impl Model {
    /// The invariant of a model.
    pub open spec fn wf(&self) -> bool {
        self@.wf()
    }

    /// A model with a random start: `n_populations` grids of the given size
    /// with random trail, one for each configuration in order, and agents at
    /// random points with random headings, as many for each population as
    /// its share of `n_particles`, rounded up. The compass is built from the
    /// `(cosine, sine)` pairs of its headings.
    pub fn new(
        width: usize,
        height: usize,
        n_particles: usize,
        n_populations: usize,
        diffusivity: usize,
        configs: Vec<PopulationConfig>,
        attraction_table: Vec<Vec<i64>>,
        directions: Vec<(i64, i64)>,
    ) -> (made: Result<Model, ConfigError>)
        ensures
            made is Ok <==> spec_new_fault(
                width as int,
                height as int,
                n_particles as int,
                n_populations as int,
                diffusivity as int,
                configs@,
                rows_of(attraction_table@),
                table_of(directions@),
            ) is None,
            made matches Err(fault) ==> spec_new_fault(
                width as int,
                height as int,
                n_particles as int,
                n_populations as int,
                diffusivity as int,
                configs@,
                rows_of(attraction_table@),
                table_of(directions@),
            ) == Some(fault),
            made matches Ok(model) ==> {
                &&& model.wf()
                &&& model@.iteration == 0
                &&& model@.diffusivity == diffusivity
                &&& model@.attraction_table == rows_of(attraction_table@)
                &&& model@.compass == table_of(directions@)
                &&& model@.snapshots.len() == 0
                &&& model@.grids.len() == n_populations
                &&& model@.agents.len() == spec_share(n_particles as int, n_populations as int)
                    * n_populations
                &&& forall|p: int|
                    0 <= p < n_populations ==> {
                        &&& (#[trigger] model@.grids[p]).width == width
                        &&& model@.grids[p].height == height
                        &&& model@.grids[p].config == configs[p]
                        &&& forall|c: int|
                            0 <= c < width * height ==> 0 <= #[trigger] model@.grids[p].field[c]
                                < UNIT
                    }
            },
    {
        if n_populations == 0 {
            return Err(ConfigError::NoPopulations);
        }
        if width == 0 || height == 0 {
            return Err(ConfigError::EmptyGrid);
        }
        if width > MAX_SIDE || height > MAX_SIDE {
            return Err(ConfigError::GridTooLarge);
        }
        assert(0 < width * height <= 0x1000_0000_0000_0000) by (nonlinear_arith)
            requires
                0 < width <= 0x4000_0000,
                0 < height <= 0x4000_0000,
        ;
        if (width as u64) * (height as u64) > usize::MAX as u64 {
            return Err(ConfigError::GridTooLarge);
        }
        if configs.len() != n_populations {
            return Err(ConfigError::PopulationCount);
        }
        if !check_configs(&configs) {
            return Err(ConfigError::InvalidPopulation);
        }
        match check_table(&attraction_table, n_populations) {
            Some(fault) => {
                return Err(fault);
            },
            None => {},
        }
        if diffusivity > MAX_DIFFUSIVITY {
            return Err(ConfigError::DiffusivityTooLarge);
        }
        let compass = match Compass::new(directions) {
            Some(compass) => compass,
            None => {
                return Err(ConfigError::InvalidCompass);
            },
        };
        let (share, total) = match share_out(n_particles, n_populations) {
            Some(shares) => shares,
            None => {
                return Err(ConfigError::TooManyParticles);
            },
        };
        let mut grids: Vec<Grid> = Vec::new();
        let mut p: usize = 0;
        while p < n_populations
            invariant
                p <= n_populations,
                n_populations == configs.len(),
                are_valid(configs@),
                is_grid_size(width as int, height as int),
                grids.len() == p,
                forall|k: int|
                    0 <= k < p ==> {
                        &&& (#[trigger] grids[k])@.wf()
                        &&& grids[k]@.width == width
                        &&& grids[k]@.height == height
                        &&& grids[k]@.config == configs[k]
                        &&& forall|c: int|
                            0 <= c < width * height ==> 0 <= #[trigger] grids[k]@.field[c] < UNIT
                    },
            decreases n_populations - p,
        {
            assert(configs[p as int].wf());
            match Grid::new(width, height, configs[p]) {
                Ok(grid) => {
                    grids.push(grid);
                },
                Err(fault) => {
                    return Err(fault);
                },
            }
            p += 1;
        }
        let turn = compass.turn();
        let mut agents: Vec<Agent> = Vec::new();
        let mut i: usize = 0;
        while i < total
            invariant
                i <= total,
                total == share * n_populations,
                n_populations > 0,
                0 < width <= MAX_SIDE,
                0 < height <= MAX_SIDE,
                0 < turn,
                agents.len() == i,
                forall|k: int|
                    0 <= k < i ==> {
                        &&& (#[trigger] agents[k])@.population == k / (share as int)
                        &&& 0 <= agents[k]@.population < n_populations
                        &&& agents[k]@.in_bounds(width as int, height as int, turn as int)
                    },
            decreases total - i,
        {
            assert(share > 0 && i / share < n_populations) by (nonlinear_arith)
                requires
                    i < total,
                    total == share * n_populations,
                    0 <= share,
                    0 < n_populations,
            ;
            let agent = Agent::new(width, height, i / share, turn);
            agents.push(agent);
            i += 1;
        }
        let model = Model {
            agents,
            grids,
            attraction_table,
            diffusivity,
            iteration: 0,
            compass,
            img_data_vec: Vec::new(),
        };
        proof {
            let views = model@.grids;
            assert forall|k: int| 0 <= k < views.len() implies {
                &&& (#[trigger] views[k]).wf()
                &&& views[k].width == views[0].width
                &&& views[k].height == views[0].height
            } by {
                assert(views[k] == model.grids[k]@);
                assert(views[0] == model.grids[0]@);
            }
            assert forall|p: int| 0 <= p < n_populations implies {
                &&& (#[trigger] model@.grids[p]).width == width
                &&& model@.grids[p].height == height
                &&& model@.grids[p].config == configs[p]
                &&& forall|c: int|
                    0 <= c < width * height ==> 0 <= #[trigger] model@.grids[p].field[c] < UNIT
            } by {
                assert(views[p] == model.grids[p]@);
            }
            lemma_even_shares(share as int, n_populations as int);
            let walkers = model@.agents;
            assert forall|k: int| 0 <= k < walkers.len() implies {
                &&& (#[trigger] walkers[k]).population == k / (walkers.len() / (
                n_populations as nat)) as int
                &&& 0 <= walkers[k].population < n_populations
                &&& walkers[k].in_bounds(views[0].width, views[0].height, turn as int)
            } by {
                assert(walkers[k] == model.agents[k]@);
            }
        }
        Ok(model)
    }

    /// A model made of the given agents and grids, which has taken no step
    /// yet. The grids must be of one size, the table square with a row for
    /// each grid, and the agents shared evenly among the populations in order,
    /// each on the grid and facing a heading of the compass.
    pub fn from_parts(
        agents: Vec<Agent>,
        grids: Vec<Grid>,
        attraction_table: Vec<Vec<i64>>,
        diffusivity: usize,
        compass: Compass,
    ) -> (made: Result<Model, ConfigError>)
        requires
            forall|p: int| 0 <= p < grids.len() ==> (#[trigger] grids[p])@.wf(),
            compass.wf(),
        ensures
            made is Ok <==> spec_parts_fault(
                agent_views(agents@),
                grid_views(grids@),
                rows_of(attraction_table@),
                diffusivity as int,
                compass@,
            ) is None,
            made matches Err(fault) ==> spec_parts_fault(
                agent_views(agents@),
                grid_views(grids@),
                rows_of(attraction_table@),
                diffusivity as int,
                compass@,
            ) == Some(fault),
            made matches Ok(model) ==> model.wf() && model@ == (ModelView {
                agents: agent_views(agents@),
                grids: grid_views(grids@),
                attraction_table: rows_of(attraction_table@),
                diffusivity: diffusivity as int,
                iteration: 0,
                compass: compass@,
                snapshots: Seq::empty(),
            }),
    {
        let ghost views = grid_views(grids@);
        if grids.len() == 0 {
            return Err(ConfigError::NoPopulations);
        }
        if !check_sizes(&grids) {
            return Err(ConfigError::GridMismatch);
        }
        match check_table(&attraction_table, grids.len()) {
            Some(fault) => {
                return Err(fault);
            },
            None => {},
        }
        if diffusivity > MAX_DIFFUSIVITY {
            return Err(ConfigError::DiffusivityTooLarge);
        }
        assert(views[0] == grids[0]@);
        assert(views[0].wf());
        if !check_agents(&agents, grids.len(), grids[0].width(), grids[0].height(), compass.turn()) {
            return Err(ConfigError::AgentLayout);
        }
        proof {
            assert forall|k: int| 0 <= k < views.len() implies {
                &&& (#[trigger] views[k]).wf()
                &&& views[k].width == views[0].width
                &&& views[k].height == views[0].height
            } by {
                assert(views[k] == grids[k]@);
            }
        }
        let model = Model {
            agents,
            grids,
            attraction_table,
            diffusivity,
            iteration: 0,
            compass,
            img_data_vec: Vec::new(),
        };
        assert(model@.snapshots =~= Seq::empty());
        Ok(model)
    }

    /// The agents, population by population.
    pub fn agents(&self) -> (agents: &Vec<Agent>)
        ensures
            agent_views(agents@) == self@.agents,
    {
        &self.agents
    }

    /// The grids, one for each population.
    pub fn grids(&self) -> (grids: &Vec<Grid>)
        ensures
            grid_views(grids@) == self@.grids,
    {
        &self.grids
    }

    /// The attraction table.
    pub fn attraction_table(&self) -> (table: &Vec<Vec<i64>>)
        ensures
            rows_of(table@) == self@.attraction_table,
    {
        &self.attraction_table
    }

    /// The radius of diffusion, in cells.
    pub fn diffusivity(&self) -> (radius: usize)
        ensures
            radius == self@.diffusivity,
    {
        self.diffusivity
    }

    /// How many steps the model has taken.
    pub fn iteration(&self) -> (steps: u64)
        ensures
            steps == self@.iteration,
    {
        self.iteration
    }

    /// Moves the model on by one step, in four phases. Every read buffer is
    /// refreshed from the trail fields of all populations. Every agent senses
    /// the buffer of its population, turns and moves. Every agent leaves its
    /// trail on the cell nearest to it, in the field of its population, in
    /// order. Every field is blurred and decays.
    pub fn step(&mut self)
        requires
            old(self).wf(),
            old(self)@.iteration < u64::MAX,
        ensures
            final(self).wf(),
            final(self)@.iteration == old(self)@.iteration + 1,
            final(self)@.attraction_table == old(self)@.attraction_table,
            final(self)@.diffusivity == old(self)@.diffusivity,
            final(self)@.compass == old(self)@.compass,
            final(self)@.snapshots == old(self)@.snapshots,
            final(self)@.agents.len() == old(self)@.agents.len(),
            forall|i: int|
                0 <= i < old(self)@.agents.len() ==> is_steered(
                    old(self)@.agents[i],
                    old(self)@.sensing()[old(self)@.agents[i].population],
                    old(self)@.compass,
                    #[trigger] final(self)@.agents[i],
                ),
            final(self)@.grids == settled(
                old(self)@.sensing(),
                final(self)@.agents,
                old(self)@.diffusivity,
            ),
    {
        let ghost before = self@;
        let ghost populations = before.grids.len() as int;
        combine(&mut self.grids, &self.attraction_table);
        let ghost sensing = grid_views(self.grids@);
        proof {
            assert(sensing == before.sensing());
            assert(sensing[0].width == before.width() && sensing[0].height == before.height());
            assert forall|i: int| 0 <= i < self.agents.len() implies (#[trigger] self.agents[i])@.population
                < self.grids.len() by {
                assert(before.agents[i].population < populations);
            }
            assert forall|p: int| 0 <= p < self.grids.len() implies (#[trigger] self.grids[p])@.wf() by {
                assert(sensing[p].wf());
            }
        }
        steer_all(&mut self.agents, &self.grids, &self.compass);
        let ghost walkers = agent_views(self.agents@);
        proof {
            assert forall|i: int| 0 <= i < walkers.len() implies {
                &&& is_steered(
                    before.agents[i],
                    sensing[before.agents[i].population],
                    before.compass,
                    #[trigger] walkers[i],
                )
                &&& walkers[i].population == before.agents[i].population
                &&& walkers[i].in_bounds(
                    before.width(),
                    before.height(),
                    before.compass.len() as int,
                )
            } by {
                let from = before.agents[i];
                let grid = sensing[from.population];
                assert(from.population < populations);
                assert(grid.wf());
                assert(grid.width == sensing[0].width && grid.height == sensing[0].height);
                lemma_steered_in_bounds(from, grid, before.compass, true);
                lemma_steered_in_bounds(from, grid, before.compass, false);
                assert(walkers[i] == self.agents[i]@);
            }
            assert(is_agent_layout(walkers, populations)) by {
                assert forall|i: int| 0 <= i < walkers.len() implies (#[trigger] walkers[i]).population
                    == i / (walkers.len() / (populations as nat)) as int by {
                    assert(walkers[i].population == before.agents[i].population);
                }
            }
        }
        let count = self.agents.len();
        let mut i: usize = 0;
        while i < count
            invariant
                i <= count,
                count == self.agents.len(),
                walkers == agent_views(self.agents@),
                populations == self.grids.len(),
                populations == sensing.len(),
                populations > 0,
                is_grid_set(sensing),
                sensing[0].width == before.width(),
                sensing[0].height == before.height(),
                is_grid_set(grid_views(self.grids@)),
                forall|i: int|
                    0 <= i < walkers.len() ==> 0 <= (#[trigger] walkers[i]).population
                        < populations,
                forall|p: int|
                    0 <= p < populations ==> (#[trigger] grid_views(self.grids@)[p])
                        == deposited_by(sensing[p], walkers, p, i as int),
                self.attraction_table == old(self).attraction_table,
                self.diffusivity == old(self).diffusivity,
                self.iteration == old(self).iteration,
                self.compass == old(self).compass,
                self.img_data_vec == old(self).img_data_vec,
            decreases count - i,
        {
            let agent = self.agents[i];
            let home = agent.population_id();
            let ghost current = grid_views(self.grids@);
            proof {
                assert(walkers[i as int] == agent@);
                assert(current[home as int].wf());
                assert(current[0].wf());
            }
            self.grids[home].deposit(agent.x(), agent.y());
            proof {
                let now = grid_views(self.grids@);
                assert(now[home as int] == current[home as int].deposited(agent@.x, agent@.y));
                assert forall|p: int| 0 <= p < populations implies (#[trigger] now[p])
                    == deposited_by(sensing[p], walkers, p, i + 1) by {
                    assert(current[p] == deposited_by(sensing[p], walkers, p, i as int));
                    if p != home {
                        assert(now[p] == current[p]);
                    }
                }
                assert forall|p: int| 0 <= p < now.len() implies {
                    &&& (#[trigger] now[p]).wf()
                    &&& now[p].width == now[0].width
                    &&& now[p].height == now[0].height
                } by {
                    assert(current[p].wf());
                    if p != home {
                        assert(now[p] == current[p]);
                    }
                    if 0 != home {
                        assert(now[0] == current[0]);
                    }
                }
            }
            i += 1;
        }
        let ghost trodden = grid_views(self.grids@);
        proof {
            assert forall|p: int| 0 <= p < self.grids.len() implies (#[trigger] self.grids[p])@.wf() by {
                assert(trodden[p].wf());
            }
        }
        diffuse_all(&mut self.grids, self.diffusivity);
        self.iteration = self.iteration + 1;
        proof {
            let after = grid_views(self.grids@);
            let goal = settled(sensing, walkers, before.diffusivity);
            assert forall|p: int| 0 <= p < populations implies after[p] == goal[p] by {
                assert(after[p] == self.grids[p]@);
                assert(trodden[p] == deposited_by(sensing[p], walkers, p, walkers.len() as int));
            }
            assert(after =~= goal);
            assert forall|p: int| 0 <= p < after.len() implies {
                &&& (#[trigger] after[p]).wf()
                &&& after[p].width == after[0].width
                &&& after[p].height == after[0].height
            } by {
                assert(after[p] == self.grids[p]@);
                assert(after[0] == self.grids[0]@);
                assert(trodden[p].wf() && trodden[0].wf());
            }
            assert(after[0].width == before.width() && after[0].height == before.height()) by {
                assert(after[0] == self.grids[0]@);
                lemma_deposited_by_frame(sensing[0], walkers, 0, walkers.len() as int);
            }
        }
    }

    /// Copies of all grids as they are now, which share nothing with the
    /// model: later steps leave them as they were.
    pub fn snapshot(&self) -> (copies: Vec<Grid>)
        ensures
            grid_views(copies@) == self@.grids,
    {
        let mut copies: Vec<Grid> = Vec::new();
        let mut p: usize = 0;
        while p < self.grids.len()
            invariant
                p <= self.grids.len(),
                copies.len() == p,
                forall|k: int| 0 <= k < p ==> (#[trigger] copies[k])@ == self.grids[k]@,
            decreases self.grids.len() - p,
        {
            copies.push(self.grids[p].snapshot());
            p += 1;
        }
        assert(grid_views(copies@) =~= self@.grids);
        copies
    }

    /// Keeps a copy of the grids as they are now, with the number of steps
    /// taken, behind the snapshots kept so far. Nothing else changes.
    pub fn save_image_data(&mut self)
        ensures
            final(self)@ == (ModelView {
                snapshots: old(self)@.snapshots.push(
                    SnapshotView { grids: old(self)@.grids, iteration: old(self)@.iteration },
                ),
                ..old(self)@
            }),
    {
        let grids = self.snapshot();
        let snapshot = Snapshot { grids, iteration: self.iteration };
        self.img_data_vec.push(snapshot);
        assert(final(self)@.snapshots =~= old(self)@.snapshots.push(snapshot@));
    }

    /// Drops every snapshot kept so far. Nothing else changes.
    pub fn flush_image_data(&mut self)
        ensures
            final(self)@ == (ModelView { snapshots: Seq::empty(), ..old(self)@ }),
    {
        self.img_data_vec.clear();
        assert(final(self)@.snapshots =~= Seq::empty());
    }

    /// The snapshots kept so far, oldest first.
    pub fn image_data(&self) -> (snapshots: &Vec<Snapshot>)
        ensures
            snapshot_views(snapshots@) == self@.snapshots,
    {
        &self.img_data_vec
    }

    /// The compass the agents steer by.
    pub fn compass(&self) -> (compass: &Compass)
        ensures
            compass@ == self@.compass,
    {
        &self.compass
    }
}

} // verus!
