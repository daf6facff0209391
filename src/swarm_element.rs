use crate::dynamics_model::{clamp_rate, rate_bounded, DynamicsModel, WhiteNoiseAcceleration, DT_MAX, RATE_MAX};
use crate::error::{ConstructionError, DegenerateFilterError};
use crate::geometry::{dist_spec, distance, Vec3};
use crate::measurements::Measurements;
use crate::particle_filter::{
    gated,
    mean_axis,
    posterior,
    predicted_from,
    Particle,
    reweight_all,
    settled,
    Observation,
    ParticleFilter,
    MAX_PARTICLES,
    WEIGHT_ONE,
};
use crate::ranging::{observe_range, NOISE_SD_MAX};
use crate::weights::{lemma_prefix_monotone, total_weight};
use vstd::prelude::*;

verus! {

/// The true and estimated positions of the step before, for trajectories.
#[derive(Clone, Copy, Debug, PartialEq, Eq)]
pub struct PrevPositions {
    pub true_position: Option<Vec3>,
    pub est_position: Option<Vec3>,
}

impl Default for PrevPositions {
    fn default() -> (r: Self)
        ensures
            r.true_position is None,
            r.est_position is None,
    {
        PrevPositions { true_position: None, est_position: None }
    }
}

/// An agent: its hidden true motion, its particle-filter belief and the
/// estimate derived from it.
#[derive(Clone, Debug, PartialEq)]
pub struct SwarmElement<M: DynamicsModel> {
    pub name: String,
    pub dynamics_model: M,
    pub est_position: Vec3,
    pub particle_filter: ParticleFilter,
    pub sd_transmission_noise: u64,
    pub sd_ranging_noise: u64,
    pub prev_positions: PrevPositions,
}

/// Velocity measured with transmission noise added, kept in range.
pub open spec fn measured_velocity(v: Vec3, noise: Vec3) -> Vec3 {
    Vec3 {
        x: clamp_rate(v.x + noise.x) as i64,
        y: clamp_rate(v.y + noise.y) as i64,
        z: clamp_rate(v.z + noise.z) as i64,
    }
}

fn add_rate(v: i64, noise: i64) -> (r: i64)
    ensures
        r == clamp_rate(v + noise),
{
    let s = v as i128 + noise as i128;
    if s < -(RATE_MAX as i128) {
        -RATE_MAX
    } else if s > RATE_MAX as i128 {
        RATE_MAX
    } else {
        s as i64
    }
}

impl<M: DynamicsModel> SwarmElement<M> {
    pub open spec fn wf(&self) -> bool {
        &&& self.dynamics_model.wf_model()
        &&& self.particle_filter.wf()
        &&& self.est_position.bounded()
        &&& 0 < self.sd_transmission_noise <= NOISE_SD_MAX
        &&& 0 < self.sd_ranging_noise <= NOISE_SD_MAX
        &&& (self.prev_positions.true_position matches Some(p) ==> p.bounded())
        &&& (self.prev_positions.est_position matches Some(p) ==> p.bounded())
    }

    /// Builds an agent; both noise deviations must be positive.
    pub fn new(
        name: String,
        dynamics_model: M,
        particle_filter: ParticleFilter,
        sd_transmission_noise: u64,
        sd_ranging_noise: u64,
    ) -> (r: Result<Self, ConstructionError>)
        requires
            dynamics_model.wf_model(),
            particle_filter.wf(),
        ensures
            r is Ok <==> (0 < sd_transmission_noise <= NOISE_SD_MAX && 0 < sd_ranging_noise
                <= NOISE_SD_MAX),
            r matches Err(e) ==> (e == ConstructionError::InvalidDeviation <==> (
            sd_transmission_noise == 0 || sd_ranging_noise == 0)),
            r matches Ok(se) ==> {
                &&& se.wf()
                &&& se.name@ == name@
                &&& se.dynamics_model == dynamics_model
                &&& se.particle_filter == particle_filter
                &&& se.est_position == Vec3::zeros_spec()
                &&& se.sd_transmission_noise == sd_transmission_noise
                &&& se.sd_ranging_noise == sd_ranging_noise
                &&& se.prev_positions.true_position is None
                &&& se.prev_positions.est_position is None
            },
    {
        if sd_transmission_noise == 0 || sd_ranging_noise == 0 {
            return Err(ConstructionError::InvalidDeviation);
        }
        if sd_transmission_noise > NOISE_SD_MAX || sd_ranging_noise > NOISE_SD_MAX {
            return Err(ConstructionError::OutOfRange);
        }
        Ok(SwarmElement {
            name,
            dynamics_model,
            est_position: Vec3::zeros(),
            particle_filter,
            sd_transmission_noise,
            sd_ranging_noise,
            prev_positions: PrevPositions::default(),
        })
    }

    /// Replaces the estimate by the filter's posterior mean and keeps the
    /// previous estimate; the first estimate serves as its own predecessor.
    /// A filter without weight has no mean: nothing changes and the error is
    /// returned.
    pub fn update_est_position(&mut self) -> (r: Result<(), DegenerateFilterError>)
        requires
            old(self).wf(),
        ensures
            final(self).wf(),
            r is Err <==> total_weight(old(self).particle_filter.particles@) == 0,
            r is Err ==> *final(self) == *old(self),
            r is Ok ==> {
                let s = old(self).particle_filter.particles@;
                &&& final(self).est_position.x == mean_axis(s, 0)
                &&& final(self).est_position.y == mean_axis(s, 1)
                &&& final(self).est_position.z == mean_axis(s, 2)
                &&& final(self).prev_positions.est_position == Some(
                    if old(self).prev_positions.est_position is None {
                        final(self).est_position
                    } else {
                        old(self).est_position
                    },
                )
                &&& final(self).prev_positions.true_position
                    == old(self).prev_positions.true_position
                &&& final(self).particle_filter == old(self).particle_filter
                &&& final(self).dynamics_model == old(self).dynamics_model
                &&& final(self).name == old(self).name
                &&& final(self).sd_transmission_noise == old(self).sd_transmission_noise
                &&& final(self).sd_ranging_noise == old(self).sd_ranging_noise
            },
    {
        let new_est = match self.particle_filter.posterior_mean() {
            Ok(m) => m,
            Err(e) => {
                return Err(e);
            },
        };
        match self.prev_positions.est_position {
            None => {
                self.prev_positions.est_position = Some(new_est);
                self.est_position = new_est;
            },
            Some(_) => {
                self.prev_positions.est_position = Some(self.est_position);
                self.est_position = new_est;
            },
        }
        Ok(())
    }

    /// Distance between the true position and the estimate, rounded down.
    pub fn estimation_error(&self) -> (r: u64)
        requires
            self.wf(),
        ensures
            r == dist_spec(self.dynamics_model.pos_spec(), self.est_position),
    {
        proof {
            self.dynamics_model.lemma_position_bounded();
        }
        distance(&self.dynamics_model.position(), &self.est_position)
    }

    /// The agent's own velocity as measured: the true velocity plus the drawn
    /// transmission noise.
    pub fn get_ranging_velocity(&self, noise: Vec3) -> (r: Vec3)
        ensures
            r == measured_velocity(self.dynamics_model.vel_spec(), noise),
            rate_bounded(r),
    {
        let v = self.dynamics_model.velocity();
        Vec3 { x: add_rate(v.x, noise.x), y: add_rate(v.y, noise.y), z: add_rate(v.z, noise.z) }
    }

    /// One motion step: the particles are predicted with the measured
    /// velocity and their own drawn accelerations, the true position is kept
    /// as the previous one, and the true state advances under the drawn
    /// acceleration `accel`.
    pub fn step(&mut self, dt: u64, accel: Vec3, velocity_noise: Vec3, particle_accels: &Vec<Vec3>)
        requires
            old(self).wf(),
            dt <= DT_MAX,
            particle_accels.len() == old(self).particle_filter.particles.len(),
        ensures
            final(self).wf(),
            final(self).prev_positions.true_position == Some(old(self).dynamics_model.pos_spec()),
            final(self).prev_positions.est_position == old(self).prev_positions.est_position,
            final(self).est_position == old(self).est_position,
            final(self).dynamics_model == old(self).dynamics_model.stepped(dt as int, accel),
            final(self).particle_filter.particles.len() == old(self).particle_filter.particles.len(),
            forall|i: int|
                0 <= i < old(self).particle_filter.particles.len() ==> (
                #[trigger] final(self).particle_filter.particles@[i]).weight == old(
                    self,
                ).particle_filter.particles@[i].weight && final(self).particle_filter.particles@[i].position
                    == old(self).dynamics_model.predicted(
                    dt as int,
                    old(self).particle_filter.particles@[i].position,
                    measured_velocity(old(self).dynamics_model.vel_spec(), velocity_noise),
                    particle_accels@[i],
                ),
    {
        let v = self.get_ranging_velocity(velocity_noise);
        self.particle_filter.update_position(&self.dynamics_model, dt, v, particle_accels);
        proof {
            self.dynamics_model.lemma_position_bounded();
        }
        self.prev_positions.true_position = Some(self.dynamics_model.position());
        self.dynamics_model.step(dt, accel);
    }

    /// Advances the true state by `dt` milliseconds under the drawn
    /// acceleration, keeping the current true position as the previous one.
    pub fn advance_truth(&mut self, dt: u64, accel: Vec3)
        requires
            old(self).wf(),
            dt <= DT_MAX,
        ensures
            final(self).wf(),
            final(self).dynamics_model == old(self).dynamics_model.stepped(dt as int, accel),
            final(self).prev_positions.true_position == Some(old(self).dynamics_model.pos_spec()),
            final(self).prev_positions.est_position == old(self).prev_positions.est_position,
            final(self).est_position == old(self).est_position,
            final(self).particle_filter == old(self).particle_filter,
            final(self).name == old(self).name,
            final(self).sd_transmission_noise == old(self).sd_transmission_noise,
            final(self).sd_ranging_noise == old(self).sd_ranging_noise,
    {
        proof {
            self.dynamics_model.lemma_position_bounded();
        }
        self.prev_positions.true_position = Some(self.dynamics_model.position());
        self.dynamics_model.step(dt, accel);
    }

    /// Fuses one timestep's observations into the belief, normalizes it,
    /// refreshes the estimate, resamples when the effective sample size has
    /// fallen below `tau * N`, and predicts the particles for the next step
    /// with the measured velocity. Returns false, leaving the estimate as it
    /// was, when the observations leave no weight: a degenerate posterior.
    pub fn localize(
        &mut self,
        obs: &Vec<Observation>,
        dt: u64,
        velocity_noise: Vec3,
        particle_accels: &Vec<Vec3>,
    ) -> (ok: bool)
        requires
            old(self).wf(),
            forall|k: int| 0 <= k < obs.len() ==> (#[trigger] obs@[k]).wf(),
            dt <= DT_MAX,
            particle_accels.len() == old(self).particle_filter.particles.len(),
        ensures
            final(self).wf(),
            final(self).dynamics_model == old(self).dynamics_model,
            final(self).prev_positions.true_position == old(self).prev_positions.true_position,
            final(self).name == old(self).name,
            final(self).sd_transmission_noise == old(self).sd_transmission_noise,
            final(self).sd_ranging_noise == old(self).sd_ranging_noise,
            final(self).particle_filter.particles.len() == old(self).particle_filter.particles.len(),
            final(self).particle_filter.tau_permille == old(self).particle_filter.tau_permille,
            ok == (total_weight(settled(reweight_all(old(self).particle_filter.particles@, obs@))) > 0),
            !ok ==> final(self).est_position == old(self).est_position
                && final(self).prev_positions.est_position == old(self).prev_positions.est_position
                && final(self).particle_filter.particles@ == reweight_all(
                old(self).particle_filter.particles@,
                obs@,
            ),
            ok ==> exists|t: Seq<Particle>|
                gated(
                    posterior(reweight_all(old(self).particle_filter.particles@, obs@)),
                    t,
                    old(self).particle_filter.tau_permille as int,
                ) && predicted_from(
                    old(self).dynamics_model,
                    dt as int,
                    measured_velocity(old(self).dynamics_model.vel_spec(), velocity_noise),
                    particle_accels@,
                    t,
                    final(self).particle_filter.particles@,
                ),
            ok ==> {
                let t = posterior(reweight_all(old(self).particle_filter.particles@, obs@));
                &&& final(self).est_position.x == mean_axis(t, 0)
                &&& final(self).est_position.y == mean_axis(t, 1)
                &&& final(self).est_position.z == mean_axis(t, 2)
                &&& final(self).prev_positions.est_position == Some(
                    if old(self).prev_positions.est_position is None {
                        final(self).est_position
                    } else {
                        old(self).est_position
                    },
                )
            },
    {
        self.particle_filter.fuse(obs);
        proof {
            let fused = settled(self.particle_filter.particles@);
            lemma_prefix_monotone(fused, 0, fused.len() as int);
        }
        if self.particle_filter.normalize_weights().is_err() {
            return false;
        }
        assert(WEIGHT_ONE - MAX_PARTICLES > 0);
        let est = self.update_est_position();
        assert(est is Ok);
        let resampled = self.particle_filter.resample();
        assert(resampled is Ok);
        let ghost t = self.particle_filter.particles@;
        let v = self.get_ranging_velocity(velocity_noise);
        self.particle_filter.update_position(&self.dynamics_model, dt, v, particle_accels);
        assert(predicted_from(
            self.dynamics_model,
            dt as int,
            v,
            particle_accels@,
            t,
            self.particle_filter.particles@,
        ));
        true
    }
}

impl<M: DynamicsModel> Measurements<M> for SwarmElement<M> {
    open spec fn wf_source(&self) -> bool {
        self.wf()
    }

    open spec fn source_position(&self) -> Vec3 {
        self.dynamics_model.pos_spec()
    }

    fn ranging(&self, swarm_element: &SwarmElement<M>, noise: i64) -> (r: i64) {
        proof {
            self.dynamics_model.lemma_position_bounded();
            swarm_element.dynamics_model.lemma_position_bounded();
        }
        observe_range(&self.dynamics_model.position(), &swarm_element.dynamics_model.position(), noise)
    }
}

/// Noise deviation an agent gets by default: one metre.
pub const DEFAULT_NOISE_SD: u64 = 1_000_000;

impl Default for SwarmElement<WhiteNoiseAcceleration> {
    fn default() -> (r: Self)
        ensures
            r.wf(),
            r.name@.len() == 0,
            r.est_position == Vec3::zeros_spec(),
            r.sd_transmission_noise == DEFAULT_NOISE_SD,
            r.sd_ranging_noise == DEFAULT_NOISE_SD,
            r.prev_positions.true_position is None,
            r.prev_positions.est_position is None,
    {
        SwarmElement {
            name: String::new(),
            dynamics_model: WhiteNoiseAcceleration::default(),
            est_position: Vec3::zeros(),
            particle_filter: ParticleFilter::default(),
            sd_transmission_noise: DEFAULT_NOISE_SD,
            sd_ranging_noise: DEFAULT_NOISE_SD,
            prev_positions: PrevPositions::default(),
        }
    }
}

} // verus!
