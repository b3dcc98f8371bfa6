//! The two phases of a step that run on all cores: every agent is steered on
//! its own, and every grid diffuses on its own. The work is handed out by the
//! `rayon` crate; what is done to each item is verified where it is defined.

use crate::agent::{is_steered, steer_among, Agent};
use crate::compass::Compass;
use crate::config::MAX_DIFFUSIVITY;
use crate::grid::Grid;
use rayon::iter::{IntoParallelRefMutIterator, ParallelIterator};
use vstd::prelude::*;

verus! {

/// Calls `rayon`'s `par_iter_mut` on the agents and `for_each` on what it
/// gives, with `steer_among` as the operation. `for_each` runs the operation
/// once on every item and returns when all are done, so afterwards every
/// agent is what `steer_among` makes of it: steered on the grid of its
/// population, for one of the two tie-breaks. The grids and the compass are
/// only read.
#[verifier::external_body]
pub(crate) fn steer_all(agents: &mut Vec<Agent>, grids: &Vec<Grid>, compass: &Compass)
    requires
        forall|i: int|
            0 <= i < old(agents).len() ==> (#[trigger] old(agents)[i])@.population < grids.len(),
        forall|p: int| 0 <= p < grids.len() ==> (#[trigger] grids[p])@.wf(),
        compass.wf(),
    ensures
        final(agents).len() == old(agents).len(),
        forall|i: int|
            0 <= i < old(agents).len() ==> is_steered(
                old(agents)[i]@,
                grids[old(agents)[i]@.population]@,
                compass@,
                (#[trigger] final(agents)[i])@,
            ),
{
    agents.par_iter_mut().for_each(|agent| steer_among(agent, grids, compass));
}

/// Calls `rayon`'s `par_iter_mut` on the grids and `for_each` on what it
/// gives, with `Grid::diffuse` as the operation. `for_each` runs the operation
/// once on every item and returns when all are done, so afterwards every grid
/// is what `diffuse` makes of it.
#[verifier::external_body]
pub(crate) fn diffuse_all(grids: &mut Vec<Grid>, radius: usize)
    requires
        forall|p: int| 0 <= p < old(grids).len() ==> (#[trigger] old(grids)[p])@.wf(),
        radius <= MAX_DIFFUSIVITY,
    ensures
        final(grids).len() == old(grids).len(),
        forall|p: int|
            0 <= p < old(grids).len() ==> (#[trigger] final(grids)[p])@ == old(grids)[p]@.diffused(
                radius as int,
            ),
        forall|p: int| 0 <= p < old(grids).len() ==> (#[trigger] final(grids)[p])@.wf(),
{
    grids.par_iter_mut().for_each(|grid| grid.diffuse(radius));
}

} // verus!
