use crate::anchor::Anchor;
use crate::dynamics_model::{DynamicsModel, DT_MAX};
use crate::error::ConstructionError;
use crate::geometry::Vec3;
use crate::measurements::Measurements;
use crate::particle_filter::{
    gated,
    mean_axis,
    posterior,
    predicted_from,
    reweight_all,
    settled,
    Observation,
    Particle,
};
use crate::weights::total_weight;
use crate::ranging::{combined_sigma, combined_std, range_spec};
use crate::swarm_element::{measured_velocity, SwarmElement};
use crate::visulization::RerunVisulization;
use vstd::prelude::*;

verus! {

/// Largest number of agents, and of anchors, in one simulation.
pub const MAX_MEMBERS: usize = 0x400;

/// The random draws one timestep consumes, drawn by the caller.
pub struct StepNoise {
    /// The acceleration of each agent's true motion.
    pub accelerations: Vec<Vec3>,
    /// The transmission noise on each agent's measured velocity.
    pub velocity_noise: Vec<Vec3>,
    /// For each agent, the acceleration of each of its particles.
    pub particle_accels: Vec<Vec<Vec3>>,
    /// For each ordered pair of agents, the noise on the range between them.
    pub peer_noise: Vec<Vec<i64>>,
    /// For each agent and anchor, the noise on the range between them.
    pub anchor_noise: Vec<Vec<i64>>,
}

/// The agents and anchors of one run, and the timestep loop over them.
pub struct Simulation<M: DynamicsModel> {
    pub swarm_elements: Vec<SwarmElement<M>>,
    pub anchors: Vec<Anchor>,
    /// The frame counter of an attached visualization, if any.
    pub visualizer: Option<RerunVisulization>,
}

/// Collects the members of a simulation before it is built.
pub struct SimulationBuilder<M: DynamicsModel> {
    pub swarm_elements: Option<Vec<SwarmElement<M>>>,
    pub anchors: Option<Vec<Anchor>>,
    pub visualizer: Option<RerunVisulization>,
}

/// Index of the `j`-th peer of agent `i`: every agent but `i`, in order.
pub open spec fn peer_index(i: int, j: int) -> int {
    if j < i {
        j
    } else {
        j + 1
    }
}

/// Where a peer is believed to be: its current estimate, or, before it has
/// made one, the mean of its prior particle population.
pub open spec fn reference_of<M: DynamicsModel>(a: SwarmElement<M>) -> Vec3 {
    let s = a.particle_filter.particles@;
    if a.prev_positions.est_position is Some || total_weight(s) == 0 {
        a.est_position
    } else {
        Vec3 {
            x: mean_axis(s, 0) as i64,
            y: mean_axis(s, 1) as i64,
            z: mean_axis(s, 2) as i64,
        }
    }
}

/// The range agent `i` observes to peer `p`, taken against where the peer is
/// believed to be.
pub open spec fn peer_observation<M: DynamicsModel>(
    truths: Seq<Vec3>,
    agents: Seq<SwarmElement<M>>,
    noise: StepNoise,
    i: int,
    p: int,
) -> Observation {
    Observation {
        range: range_spec(truths[i], truths[p], noise.peer_noise@[i]@[p] as int) as i64,
        reference: reference_of(agents[p]),
        sigma: combined_sigma(
            agents[i].sd_ranging_noise as int,
            agents[p].sd_ranging_noise as int,
        ) as u64,
    }
}

/// The range agent `i` observes to anchor `k`.
pub open spec fn anchor_observation<M: DynamicsModel>(
    truths: Seq<Vec3>,
    agents: Seq<SwarmElement<M>>,
    anchors: Seq<Anchor>,
    noise: StepNoise,
    i: int,
    k: int,
) -> Observation {
    Observation {
        range: range_spec(anchors[k].position, truths[i], noise.anchor_noise@[i]@[k] as int) as i64,
        reference: anchors[k].position,
        sigma: combined_sigma(
            agents[i].sd_ranging_noise as int,
            anchors[k].sd_ranging_noise as int,
        ) as u64,
    }
}

/// Everything agent `i` observes in one timestep: first every other agent,
/// then every anchor, given the agents' true positions `truths`.
pub open spec fn observations<M: DynamicsModel>(
    truths: Seq<Vec3>,
    agents: Seq<SwarmElement<M>>,
    anchors: Seq<Anchor>,
    noise: StepNoise,
    i: int,
) -> Seq<Observation> {
    Seq::new(
        (agents.len() - 1) as nat,
        |j: int| peer_observation(truths, agents, noise, i, peer_index(i, j)),
    ) + Seq::new(anchors.len(), |k: int| anchor_observation(truths, agents, anchors, noise, i, k))
}

/// The agents' true positions after a motion step of `dt` milliseconds.
pub open spec fn moved_truths<M: DynamicsModel>(agents: Seq<SwarmElement<M>>, noise: StepNoise, dt: int) -> Seq<Vec3> {
    Seq::new(
        agents.len(),
        |p: int| agents[p].dynamics_model.stepped(dt, noise.accelerations@[p]).pos_spec(),
    )
}

/// The agents' current true positions.
pub open spec fn truths_of<M: DynamicsModel>(agents: Seq<SwarmElement<M>>) -> Seq<Vec3> {
    Seq::new(agents.len(), |p: int| agents[p].dynamics_model.pos_spec())
}

/// What one timestep does to agent `i`, which was `agents[i]` before it and
/// is `f` after it; `ok` tells whether its posterior kept any weight.
pub open spec fn step_outcome<M: DynamicsModel>(
    agents: Seq<SwarmElement<M>>,
    anchors: Seq<Anchor>,
    noise: StepNoise,
    dt: int,
    i: int,
    f: SwarmElement<M>,
    ok: bool,
) -> bool {
    let a = agents[i];
    let fused = reweight_all(
        a.particle_filter.particles@,
        observations(moved_truths(agents, noise, dt), agents, anchors, noise, i),
    );
    &&& f.name == a.name
    &&& f.sd_transmission_noise == a.sd_transmission_noise
    &&& f.sd_ranging_noise == a.sd_ranging_noise
    &&& f.dynamics_model == a.dynamics_model.stepped(dt, noise.accelerations@[i])
    &&& f.prev_positions.true_position == Some(a.dynamics_model.pos_spec())
    &&& f.particle_filter.particles.len() == a.particle_filter.particles.len()
    &&& f.particle_filter.tau_permille == a.particle_filter.tau_permille
    &&& ok == (total_weight(settled(fused)) > 0)
    &&& !ok ==> f.est_position == a.est_position && f.prev_positions.est_position
        == a.prev_positions.est_position && f.particle_filter.particles@ == fused
    &&& ok ==> exists|t: Seq<Particle>|
        gated(posterior(fused), t, a.particle_filter.tau_permille as int) && predicted_from(
            f.dynamics_model,
            dt,
            measured_velocity(f.dynamics_model.vel_spec(), noise.velocity_noise@[i]),
            noise.particle_accels@[i]@,
            t,
            f.particle_filter.particles@,
        )
    &&& ok ==> {
        let t = posterior(fused);
        &&& f.est_position.x == mean_axis(t, 0)
        &&& f.est_position.y == mean_axis(t, 1)
        &&& f.est_position.z == mean_axis(t, 2)
        &&& f.prev_positions.est_position == Some(
            if a.prev_positions.est_position is None {
                f.est_position
            } else {
                a.est_position
            },
        )
    }
}

impl<M: DynamicsModel> Simulation<M> {
    pub open spec fn wf(&self) -> bool {
        &&& 0 < self.swarm_elements.len() <= MAX_MEMBERS
        &&& 0 < self.anchors.len() <= MAX_MEMBERS
        &&& forall|i: int| 0 <= i < self.swarm_elements.len() ==> (#[trigger] self.swarm_elements@[i]).wf()
        &&& forall|k: int| 0 <= k < self.anchors.len() ==> (#[trigger] self.anchors@[k]).wf()
    }

    /// The draws have one entry for each agent, particle, pair and anchor.
    pub open spec fn noise_fits(&self, noise: &StepNoise) -> bool {
        let n = self.swarm_elements.len();
        &&& noise.accelerations.len() == n
        &&& noise.velocity_noise.len() == n
        &&& noise.particle_accels.len() == n
        &&& noise.peer_noise.len() == n
        &&& noise.anchor_noise.len() == n
        &&& forall|i: int|
            0 <= i < n ==> (#[trigger] noise.particle_accels@[i]).len()
                == self.swarm_elements@[i].particle_filter.particles.len()
        &&& forall|i: int| 0 <= i < n ==> (#[trigger] noise.peer_noise@[i]).len() == n
        &&& forall|i: int| 0 <= i < n ==> (#[trigger] noise.anchor_noise@[i]).len() == self.anchors.len()
    }

    pub fn builder() -> (r: SimulationBuilder<M>)
        ensures
            r.swarm_elements is None,
            r.anchors is None,
            r.visualizer is None,
    {
        SimulationBuilder { swarm_elements: None, anchors: None, visualizer: None }
    }

    /// One timestep, in order: every agent's true state advances; every
    /// agent observes its range to every other agent, taken against where
    /// that agent is believed to be before this step's updates, and to every
    /// anchor, each with the combined
    /// noise deviation of both ends; every agent then fuses its observations,
    /// normalizes, refreshes its estimate, resamples when its effective sample
    /// size calls for it, and predicts its particles with its measured
    /// velocity. Entry `i` of the result is false when agent `i`'s posterior
    /// lost all weight; that agent's estimate is then left as it was, and the
    /// other agents go on.
    pub fn step(&mut self, dt: u64, noise: &StepNoise) -> (r: Vec<bool>)
        requires
            old(self).wf(),
            old(self).noise_fits(noise),
            dt <= DT_MAX,
        ensures
            final(self).wf(),
            final(self).noise_fits(noise),
            final(self).anchors@ == old(self).anchors@,
            final(self).swarm_elements.len() == old(self).swarm_elements.len(),
            final(self).visualizer is Some <==> old(self).visualizer is Some,
            old(self).visualizer matches Some(v) ==> final(self).visualizer->0.current_frame == if v.current_frame
                < usize::MAX {
                v.current_frame + 1
            } else {
                v.current_frame as int
            },
            r.len() == old(self).swarm_elements.len(),
            forall|i: int|
                0 <= i < r.len() ==> #[trigger] step_outcome(
                    old(self).swarm_elements@,
                    old(self).anchors@,
                    *noise,
                    dt as int,
                    i,
                    final(self).swarm_elements@[i],
                    r@[i],
                ),
    {
        let ghost agents = self.swarm_elements@;
        let n = self.swarm_elements.len();
        let mut i: usize = 0;
        while i < n
            invariant
                self.wf(),
                self.noise_fits(noise),
                self.anchors@ == old(self).anchors@,
                self.visualizer == old(self).visualizer,
                agents == old(self).swarm_elements@,
                n == agents.len() == self.swarm_elements.len(),
                noise.accelerations.len() == n,
                dt <= DT_MAX,
                i <= n,
                forall|k: int| i <= k < n ==> #[trigger] self.swarm_elements@[k] == agents[k],
                forall|k: int|
                    0 <= k < i ==> {
                        let f = #[trigger] self.swarm_elements@[k];
                        let a = agents[k];
                        &&& f.dynamics_model == a.dynamics_model.stepped(
                            dt as int,
                            noise.accelerations@[k],
                        )
                        &&& f.prev_positions.true_position == Some(a.dynamics_model.pos_spec())
                        &&& f.prev_positions.est_position == a.prev_positions.est_position
                        &&& f.est_position == a.est_position
                        &&& f.particle_filter == a.particle_filter
                        &&& f.name == a.name
                        &&& f.sd_transmission_noise == a.sd_transmission_noise
                        &&& f.sd_ranging_noise == a.sd_ranging_noise
                    },
            decreases n - i,
        {
            assert(self.swarm_elements@[i as int].wf());
            let accel = noise.accelerations[i];
            self.swarm_elements[i].advance_truth(dt, accel);
            proof {
                assert forall|k: int| 0 <= k < n implies (#[trigger] self.swarm_elements@[k]).wf() by {
                    if k != i {
                        assert(self.swarm_elements@[k] == old(self).swarm_elements@[k] || k < i);
                    }
                }
            }
            i = i + 1;
        }
        let ghost mid = self.swarm_elements@;
        proof {
            assert(truths_of(mid) =~= moved_truths(agents, *noise, dt as int));
        }
        let mut all_obs: Vec<Vec<Observation>> = Vec::new();
        let mut i: usize = 0;
        while i < n
            invariant
                self.wf(),
                self.noise_fits(noise),
                self.visualizer == old(self).visualizer,
                self.swarm_elements@ == mid,
                n == mid.len(),
                i <= n,
                all_obs.len() == i,
                forall|k: int|
                    0 <= k < i ==> (#[trigger] all_obs@[k])@ == observations(
                        truths_of(mid),
                        mid,
                        self.anchors@,
                        *noise,
                        k,
                    ),
                forall|k: int|
                    0 <= k < i ==> forall|m: int|
                        0 <= m < (#[trigger] all_obs@[k]).len() ==> (#[trigger] all_obs@[k]@[m]).wf(),
            decreases n - i,
        {
            let o = self.observations_for(i, noise);
            all_obs.push(o);
            i = i + 1;
        }
        let mut r: Vec<bool> = Vec::new();
        let mut i: usize = 0;
        while i < n
            invariant
                self.wf(),
                self.anchors@ == old(self).anchors@,
                self.visualizer == old(self).visualizer,
                n == mid.len() == self.swarm_elements.len(),
                all_obs.len() == n,
                dt <= DT_MAX,
                noise.velocity_noise.len() == n,
                noise.particle_accels.len() == n,
                forall|k: int|
                    0 <= k < n ==> (#[trigger] noise.particle_accels@[k]).len()
                        == mid[k].particle_filter.particles.len(),
                forall|k: int|
                    0 <= k < n ==> forall|m: int|
                        0 <= m < (#[trigger] all_obs@[k]).len() ==> (#[trigger] all_obs@[k]@[m]).wf(),
                i <= n,
                r.len() == i,
                forall|k: int| i <= k < n ==> #[trigger] self.swarm_elements@[k] == mid[k],
                forall|k: int|
                    0 <= k < i ==> {
                        let f = #[trigger] self.swarm_elements@[k];
                        let a = mid[k];
                        let fused = reweight_all(a.particle_filter.particles@, all_obs@[k]@);
                        &&& f.dynamics_model == a.dynamics_model
                        &&& f.prev_positions.true_position == a.prev_positions.true_position
                        &&& f.name == a.name
                        &&& f.sd_transmission_noise == a.sd_transmission_noise
                        &&& f.sd_ranging_noise == a.sd_ranging_noise
                        &&& f.particle_filter.particles.len() == a.particle_filter.particles.len()
                        &&& f.particle_filter.tau_permille == a.particle_filter.tau_permille
                        &&& r@[k] == (total_weight(settled(fused)) > 0)
                        &&& !r@[k] ==> f.est_position == a.est_position
                            && f.prev_positions.est_position == a.prev_positions.est_position
                            && f.particle_filter.particles@ == fused
                        &&& r@[k] ==> exists|t: Seq<Particle>|
                            gated(posterior(fused), t, a.particle_filter.tau_permille as int)
                                && predicted_from(
                                a.dynamics_model,
                                dt as int,
                                measured_velocity(
                                    a.dynamics_model.vel_spec(),
                                    noise.velocity_noise@[k],
                                ),
                                noise.particle_accels@[k]@,
                                t,
                                f.particle_filter.particles@,
                            )
                        &&& r@[k] ==> {
                            let t = posterior(fused);
                            &&& f.est_position.x == mean_axis(t, 0)
                            &&& f.est_position.y == mean_axis(t, 1)
                            &&& f.est_position.z == mean_axis(t, 2)
                            &&& f.prev_positions.est_position == Some(
                                if a.prev_positions.est_position is None {
                                    f.est_position
                                } else {
                                    a.est_position
                                },
                            )
                        }
                    },
            decreases n - i,
        {
            assert(self.swarm_elements@[i as int].wf());
            assert(forall|m: int|
                0 <= m < all_obs@[i as int].len() ==> (#[trigger] all_obs@[i as int]@[m]).wf());
            let ok = self.swarm_elements[i].localize(
                &all_obs[i],
                dt,
                noise.velocity_noise[i],
                &noise.particle_accels[i],
            );
            r.push(ok);
            proof {
                assert forall|k: int| 0 <= k < n implies (#[trigger] self.swarm_elements@[k]).wf() by {
                    if k != i {
                        assert(k < i || self.swarm_elements@[k] == mid[k]);
                    }
                }
            }
            i = i + 1;
        }
        proof {
            assert forall|k: int| 0 <= k < n implies #[trigger] step_outcome(
                agents,
                old(self).anchors@,
                *noise,
                dt as int,
                k,
                self.swarm_elements@[k],
                r@[k],
            ) by {
                let o1 = observations(truths_of(mid), mid, self.anchors@, *noise, k);
                let o2 = observations(moved_truths(agents, *noise, dt as int), agents, self.anchors@, *noise, k);
                assert(o1 =~= o2);
                assert(all_obs@[k]@ == o1);
            }
        }
        if let Some(v) = &mut self.visualizer {
            v.advance_frame();
        }
        r
    }

    fn observations_for(&self, i: usize, noise: &StepNoise) -> (r: Vec<Observation>)
        requires
            self.wf(),
            self.noise_fits(noise),
            i < self.swarm_elements.len(),
        ensures
            r@ == observations(
                truths_of(self.swarm_elements@),
                self.swarm_elements@,
                self.anchors@,
                *noise,
                i as int,
            ),
            forall|k: int| 0 <= k < r.len() ==> (#[trigger] r@[k]).wf(),
    {
        let ghost truths = truths_of(self.swarm_elements@);
        let ghost agents = self.swarm_elements@;
        let n = self.swarm_elements.len();
        let me = &self.swarm_elements[i];
        let mut out: Vec<Observation> = Vec::new();
        let mut j: usize = 0;
        while j < n - 1
            invariant
                self.wf(),
                self.noise_fits(noise),
                agents == self.swarm_elements@,
                truths == truths_of(agents),
                n == agents.len(),
                i < n,
                *me == agents[i as int],
                j <= n - 1,
                out.len() == j,
                forall|k: int|
                    0 <= k < j ==> (#[trigger] out@[k]) == peer_observation(
                        truths,
                        agents,
                        *noise,
                        i as int,
                        peer_index(i as int, k),
                    ) && out@[k].wf(),
            decreases n - 1 - j,
        {
            let p = if j < i {
                j
            } else {
                j + 1
            };
            let other = &self.swarm_elements[p];
            assert(agents[p as int].wf());
            let range = me.ranging(other, noise.peer_noise[i][p]);
            let sigma = combined_std(me.sd_ranging_noise, other.sd_ranging_noise);
            let reference = if other.prev_positions.est_position.is_some() {
                other.est_position
            } else {
                match other.particle_filter.posterior_mean() {
                    Ok(m) => m,
                    Err(_) => other.est_position,
                }
            };
            out.push(Observation { range, reference, sigma });
            j = j + 1;
        }
        let ghost peers = out@;
        let mut k: usize = 0;
        while k < self.anchors.len()
            invariant
                self.wf(),
                self.noise_fits(noise),
                agents == self.swarm_elements@,
                truths == truths_of(agents),
                n == agents.len(),
                i < n,
                *me == agents[i as int],
                k <= self.anchors.len(),
                out.len() == peers.len() + k,
                forall|m: int| 0 <= m < peers.len() ==> #[trigger] out@[m] == peers[m],
                forall|m: int| 0 <= m < peers.len() ==> (#[trigger] peers[m]).wf(),
                forall|m: int|
                    0 <= m < k ==> (#[trigger] out@[peers.len() + m]) == anchor_observation(
                        truths,
                        agents,
                        self.anchors@,
                        *noise,
                        i as int,
                        m,
                    ) && out@[peers.len() + m].wf(),
            decreases self.anchors.len() - k,
        {
            let anchor = &self.anchors[k];
            assert(self.anchors@[k as int].wf());
            let range = anchor.ranging(me, noise.anchor_noise[i][k]);
            let sigma = combined_std(me.sd_ranging_noise, anchor.sd_ranging_noise);
            out.push(Observation { range, reference: anchor.position, sigma });
            k = k + 1;
        }
        proof {
            let expected = observations(truths, agents, self.anchors@, *noise, i as int);
            assert forall|m: int| 0 <= m < out.len() implies #[trigger] out@[m] == expected[m]
                && out@[m].wf() by {
                if m < peers.len() {
                    assert(out@[m] == peers[m]);
                } else {
                    let q = m - peers.len();
                    assert(out@[peers.len() + q] == anchor_observation(
                        truths,
                        agents,
                        self.anchors@,
                        *noise,
                        i as int,
                        q,
                    ));
                }
            }
            assert(out@ =~= expected);
        }
        out
    }
}

impl<M: DynamicsModel> SimulationBuilder<M> {
    pub fn swarm_elements(self, swarm_elements: Vec<SwarmElement<M>>) -> (r: Self)
        ensures
            r.swarm_elements == Some(swarm_elements),
            r.anchors == self.anchors,
            r.visualizer == self.visualizer,
    {
        SimulationBuilder {
            swarm_elements: Some(swarm_elements),
            anchors: self.anchors,
            visualizer: self.visualizer,
        }
    }

    pub fn anchors(self, anchors: Vec<Anchor>) -> (r: Self)
        ensures
            r.anchors == Some(anchors),
            r.swarm_elements == self.swarm_elements,
            r.visualizer == self.visualizer,
    {
        SimulationBuilder {
            swarm_elements: self.swarm_elements,
            anchors: Some(anchors),
            visualizer: self.visualizer,
        }
    }

    pub fn visualizer(self, visualizer: RerunVisulization) -> (r: Self)
        ensures
            r.visualizer == Some(visualizer),
            r.swarm_elements == self.swarm_elements,
            r.anchors == self.anchors,
    {
        SimulationBuilder {
            swarm_elements: self.swarm_elements,
            anchors: self.anchors,
            visualizer: Some(visualizer),
        }
    }

    /// Builds the simulation; it needs at least one agent and one anchor.
    pub fn build(self) -> (r: Result<Simulation<M>, ConstructionError>)
        requires
            self.swarm_elements matches Some(v) ==> forall|i: int|
                0 <= i < v.len() ==> (#[trigger] v@[i]).wf(),
            self.anchors matches Some(v) ==> forall|i: int|
                0 <= i < v.len() ==> (#[trigger] v@[i]).wf(),
        ensures
            r is Ok <==> (self.swarm_elements matches Some(v) && 0 < v.len() <= MAX_MEMBERS)
                && (self.anchors matches Some(v) && 0 < v.len() <= MAX_MEMBERS),
            r matches Err(e) ==> e == ConstructionError::BadCount,
            r matches Ok(sim) ==> sim.wf() && Some(sim.swarm_elements) == self.swarm_elements
                && Some(sim.anchors) == self.anchors && sim.visualizer == self.visualizer,
    {
        let swarm_elements = match self.swarm_elements {
            Some(v) => v,
            None => {
                return Err(ConstructionError::BadCount);
            },
        };
        let anchors = match self.anchors {
            Some(v) => v,
            None => {
                return Err(ConstructionError::BadCount);
            },
        };
        if swarm_elements.len() == 0 || swarm_elements.len() > MAX_MEMBERS || anchors.len() == 0
            || anchors.len() > MAX_MEMBERS {
            return Err(ConstructionError::BadCount);
        }
        Ok(Simulation { swarm_elements, anchors, visualizer: self.visualizer })
    }
}

} // verus!
