//! Limits of the fixed-point model, the behaviour of one population, and the
//! reasons a configuration is refused.

use crate::random::uniform_below;
use crate::util::UNIT;
use vstd::prelude::*;

verus! {

/// The largest trail intensity a cell can hold (`2^40`); deposits saturate here.
pub const TRAIL_MAX: i64 = 1_099_511_627_776;

/// The largest magnitude of an attraction weight (`2^20`).
pub const WEIGHT_MAX: i64 = 1_048_576;

/// The largest magnitude a sensed value can have (`2^108`): what any number of
/// saturated trails can add up to under the heaviest weights.
pub const SENSE_MAX: i128 = 324_518_553_658_426_726_783_156_020_576_256;

/// The largest width or height of a grid, in cells (`2^30`).
pub const MAX_SIDE: usize = 1_073_741_824;

/// The largest sensor or step distance (`2^46`).
pub const MAX_DISTANCE: i64 = 70_368_744_177_664;

/// The largest diffusion radius, in cells (`2^20`).
pub const MAX_DIFFUSIVITY: usize = 1_048_576;

/// The farthest a randomly configured population senses ahead: `64` cells.
pub const RANDOM_SENSOR_DISTANCE_MAX: i64 = 4_194_304;

/// The shortest step of a randomly configured population: a fifth of a cell.
pub const RANDOM_STEP_DISTANCE_MIN: i64 = 13_107;

/// The longest step of a randomly configured population: two cells.
pub const RANDOM_STEP_DISTANCE_MAX: i64 = 131_072;

/// The share of the trail of a randomly configured population that survives
/// one diffusion: a tenth.
pub const RANDOM_DECAY_FACTOR: i64 = 6_554;

/// The trail an agent of a randomly configured population leaves: `5`.
pub const RANDOM_DEPOSITION_AMOUNT: i64 = 327_680;

/// How the agents of one population sense, turn, move and leave trail.
#[derive(Clone, Copy, Debug, PartialEq, Eq)]
pub struct PopulationConfig {
    /// How far ahead of the agent its three sensors sit.
    pub sensor_distance: i64,
    /// How far the agent moves in one step.
    pub step_distance: i64,
    /// The angle between the centre sensor and each side sensor, in headings.
    pub sensor_angle: usize,
    /// How far the agent turns when it turns, in headings.
    pub rotation_angle: usize,
    /// The share of the trail that survives one diffusion, at most `UNIT`.
    pub decay_factor: i64,
    /// The trail an agent leaves on the cell it stands on.
    pub deposition_amount: i64,
}

impl PopulationConfig {
    /// Whether every field lies within the limits of the model.
    pub open spec fn wf(&self) -> bool {
        &&& 0 <= self.sensor_distance <= MAX_DISTANCE
        &&& 0 <= self.step_distance <= MAX_DISTANCE
        &&& 0 <= self.decay_factor <= UNIT
        &&& 0 <= self.deposition_amount <= TRAIL_MAX
    }

    /// Whether the configuration is one that `random` can draw for a compass
    /// of `turn` headings: the distances within their ranges, the angles at
    /// most a third of a turn, decay and deposition at their fixed values.
    pub open spec fn is_drawn(&self, turn: int) -> bool {
        &&& 0 <= self.sensor_distance <= RANDOM_SENSOR_DISTANCE_MAX
        &&& RANDOM_STEP_DISTANCE_MIN <= self.step_distance <= RANDOM_STEP_DISTANCE_MAX
        &&& 0 <= self.sensor_angle <= turn / 3
        &&& 0 <= self.rotation_angle <= turn / 3
        &&& self.decay_factor == RANDOM_DECAY_FACTOR
        &&& self.deposition_amount == RANDOM_DEPOSITION_AMOUNT
    }

    /// A configuration drawn at random for a compass of `turn` headings.
    pub fn random(turn: usize) -> (config: PopulationConfig)
        ensures
            config.is_drawn(turn as int),
            config.wf(),
    {
        let sensor_distance = uniform_below(RANDOM_SENSOR_DISTANCE_MAX as u64 + 1) as i64;
        let step_span = (RANDOM_STEP_DISTANCE_MAX - RANDOM_STEP_DISTANCE_MIN) as u64 + 1;
        let step_distance = RANDOM_STEP_DISTANCE_MIN + uniform_below(step_span) as i64;
        let widest = (turn / 3) as u64;
        let sensor_angle = uniform_below(widest + 1) as usize;
        let rotation_angle = uniform_below(widest + 1) as usize;
        PopulationConfig {
            sensor_distance,
            step_distance,
            sensor_angle,
            rotation_angle,
            decay_factor: RANDOM_DECAY_FACTOR,
            deposition_amount: RANDOM_DEPOSITION_AMOUNT,
        }
    }

    /// Tests the limits of the model on this configuration.
    pub fn is_valid(&self) -> (valid: bool)
        ensures
            valid == self.wf(),
    {
        0 <= self.sensor_distance && self.sensor_distance <= MAX_DISTANCE && 0
            <= self.step_distance && self.step_distance <= MAX_DISTANCE && 0 <= self.decay_factor
            && self.decay_factor <= UNIT && 0 <= self.deposition_amount && self.deposition_amount
            <= TRAIL_MAX
    }
}

/// Why a grid or a model could not be built.
#[derive(Clone, Copy, Debug, PartialEq, Eq, Structural)]
pub enum ConfigError {
    /// The model was asked for no population at all.
    NoPopulations,
    /// The grid has no cells: its width or its height is zero.
    EmptyGrid,
    /// A side of the grid exceeds `MAX_SIDE`, or its cells cannot be counted.
    GridTooLarge,
    /// The grids of the populations differ in size.
    GridMismatch,
    /// The number of population configurations differs from the number of
    /// populations.
    PopulationCount,
    /// A population configuration lies outside the limits of the model.
    InvalidPopulation,
    /// A trail field does not have one value per cell.
    FieldShape,
    /// A trail intensity is negative or exceeds `TRAIL_MAX`.
    TrailOutOfRange,
    /// The attraction table is not square with one row per population.
    TableShape,
    /// An attraction weight exceeds `WEIGHT_MAX` in magnitude.
    WeightOutOfRange,
    /// The diffusion radius exceeds `MAX_DIFFUSIVITY`.
    DiffusivityTooLarge,
    /// The compass has no heading, or a direction with a component beyond
    /// `UNIT`.
    InvalidCompass,
    /// The agents, shared evenly among the populations, cannot be counted.
    TooManyParticles,
    /// The agents are not shared evenly among the populations in order, or
    /// one of them stands off the grid or faces a heading the compass lacks.
    AgentLayout,
}

} // verus!
