use crate::dynamics_model::DynamicsModel;
use crate::error::ConstructionError;
use crate::geometry::Vec3;
use crate::measurements::Measurements;
use crate::ranging::{observe_range, NOISE_SD_MAX};
use crate::swarm_element::SwarmElement;
use vstd::prelude::*;

verus! {

/// Standard deviation an anchor gets by default: one metre.
pub const DEFAULT_RANGING_SD: u64 = 1_000_000;

/// A reference point at a known, fixed position, whose ranging adds noise of
/// its own.
#[derive(Clone, Copy, Debug, PartialEq, Eq)]
pub struct Anchor {
    pub position: Vec3,
    pub sd_ranging_noise: u64,
}

impl Anchor {
    pub open spec fn wf(self) -> bool {
        self.position.bounded() && 0 < self.sd_ranging_noise <= NOISE_SD_MAX
    }

    /// Builds an anchor; its noise deviation must be positive.
    pub fn new(position: Vec3, sd_ranging_noise: u64) -> (r: Result<Self, ConstructionError>)
        ensures
            r is Ok <==> position.bounded() && 0 < sd_ranging_noise <= NOISE_SD_MAX,
            r matches Ok(a) ==> a.position == position && a.sd_ranging_noise == sd_ranging_noise,
            r matches Err(e) ==> (e == ConstructionError::InvalidDeviation <==> sd_ranging_noise
                == 0),
    {
        if sd_ranging_noise == 0 {
            return Err(ConstructionError::InvalidDeviation);
        }
        if !position.is_bounded() || sd_ranging_noise > NOISE_SD_MAX {
            return Err(ConstructionError::OutOfRange);
        }
        Ok(Anchor { position, sd_ranging_noise })
    }
}

impl<M: DynamicsModel> Measurements<M> for Anchor {
    open spec fn wf_source(&self) -> bool {
        self.wf()
    }

    open spec fn source_position(&self) -> Vec3 {
        self.position
    }

    fn ranging(&self, swarm_element: &SwarmElement<M>, noise: i64) -> (r: i64) {
        proof {
            swarm_element.dynamics_model.lemma_position_bounded();
        }
        observe_range(&self.position, &swarm_element.dynamics_model.position(), noise)
    }
}

impl Default for Anchor {
    fn default() -> (r: Self)
        ensures
            r.position == Vec3::zeros_spec(),
            r.sd_ranging_noise == DEFAULT_RANGING_SD,
            r.wf(),
    {
        Anchor { position: Vec3::zeros(), sd_ranging_noise: DEFAULT_RANGING_SD }
    }
}

} // verus!
