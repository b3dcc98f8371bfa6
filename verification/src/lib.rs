//! A multi-species Physarum transport-network simulation on a toroidal plane.
//!
//! Large populations of point agents move over a plane without edges. Each
//! agent senses the trail ahead of it, turns toward the stronger reading,
//! moves one step and leaves trail where it stands; the trail of every
//! population is then blurred and decays. An attraction table couples the
//! populations: what the agents of one population sense is a weighted sum of
//! the trails of all of them.
//!
//! The simulation is computed in fixed-point arithmetic. A continuous
//! quantity (a coordinate, a distance, a trail intensity, a weight) is an
//! integer count of `1 / UNIT`; an angle is a number of steps of a compass
//! that divides the full turn evenly and holds the cosine and sine of every
//! heading. Every operation is thereby an exact function on integers, stated
//! as such in its contract and proved against it.
//!
//! - `util`: fixed-point products and toroidal wrapping.
//! - `config`: the limits of the model, a population's behaviour, and the
//!   reasons a configuration is refused.
//! - `compass`: headings and their unit vectors.
//! - `steering`: the rule by which an agent picks its turn.
//! - `blur`, `mixing`, `rank`: the mathematics of diffusion, of the coupling
//!   of populations, and of quantiles.
//! - `grid`: one population's trail field and read buffer.
//! - `agent`: sensing, turning and moving.
//! - `model`: the simulation and its step.
//! - `parallel`, `random`: the calls into `rayon` and `rand`.
//! - `render`: from trail intensity to brightness.

pub mod agent;
pub mod blur;
pub mod compass;
pub mod config;
pub mod grid;
pub mod mixing;
pub mod model;
pub mod parallel;
pub mod random;
pub mod rank;
pub mod render;
pub mod steering;
pub mod util;
