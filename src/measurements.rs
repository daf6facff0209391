use crate::dynamics_model::DynamicsModel;
use crate::geometry::Vec3;
use crate::ranging::{range_spec, RANGE_MAX};
use crate::swarm_element::SwarmElement;
use vstd::prelude::*;

verus! {

/// Something that ranges to an agent: the observation is the distance from
/// its own position to the agent's true position, plus the drawn noise.
pub trait Measurements<M: DynamicsModel> {
    /// The source is well formed.
    spec fn wf_source(&self) -> bool;

    /// Where the range is measured from.
    spec fn source_position(&self) -> Vec3;

    /// The observed range to the agent's true position, with the drawn noise
    /// added.
    fn ranging(&self, swarm_element: &SwarmElement<M>, noise: i64) -> (r: i64)
        requires
            self.wf_source(),
            swarm_element.wf(),
        ensures
            r == range_spec(self.source_position(), swarm_element.dynamics_model.pos_spec(), noise as int),
            -RANGE_MAX <= r <= RANGE_MAX,
    ;
}

} // verus!
