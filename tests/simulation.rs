use particle_filter::anchor::Anchor;
use particle_filter::dynamics_model::{DynamicsModel, WhiteNoiseAcceleration};
use particle_filter::enclosure::BoundingBox;
use particle_filter::geometry::Vec3;
use particle_filter::particle_filter::ParticleFilter;
use particle_filter::ranging::combined_std;
use particle_filter::simulation::{Simulation, StepNoise};
use particle_filter::swarm_element::SwarmElement;
use particle_filter::visulization::RerunVisulization;
use rand::rngs::StdRng;
use rand::SeedableRng;
use rand_distr::{Distribution, Normal};

const M: i64 = 1_000_000;

fn draw(rng: &mut StdRng, sd: u64) -> i64 {
    if sd == 0 {
        return 0;
    }
    Normal::new(0.0, sd as f64).unwrap().sample(rng).round() as i64
}

fn draw_vec(rng: &mut StdRng, mean: Vec3, sd: Vec3) -> Vec3 {
    Vec3::new(
        mean.x + draw(rng, sd.x as u64),
        mean.y + draw(rng, sd.y as u64),
        mean.z + draw(rng, sd.z as u64),
    )
}

fn noise_for(sim: &Simulation<WhiteNoiseAcceleration>, rng: &mut StdRng) -> StepNoise {
    let agents = &sim.swarm_elements;
    let accelerations = agents
        .iter()
        .map(|a| draw_vec(rng, a.dynamics_model.mean_a, a.dynamics_model.sigma_a))
        .collect();
    let velocity_noise = agents
        .iter()
        .map(|a| {
            let sd = a.sd_transmission_noise as i64;
            draw_vec(rng, Vec3::zeros(), Vec3::new(sd, sd, sd))
        })
        .collect();
    let particle_accels = agents
        .iter()
        .map(|a| {
            (0..a.particle_filter.particles.len())
                .map(|_| draw_vec(rng, a.dynamics_model.mean_a, a.dynamics_model.sigma_a))
                .collect()
        })
        .collect();
    let peer_noise = agents
        .iter()
        .map(|a| {
            agents
                .iter()
                .map(|b| draw(rng, combined_std(a.sd_ranging_noise, b.sd_ranging_noise)))
                .collect()
        })
        .collect();
    let anchor_noise = agents
        .iter()
        .map(|a| {
            sim.anchors
                .iter()
                .map(|k| draw(rng, combined_std(a.sd_ranging_noise, k.sd_ranging_noise)))
                .collect()
        })
        .collect();
    StepNoise { accelerations, velocity_noise, particle_accels, peer_noise, anchor_noise }
}

#[test]
#[should_panic(expected = "expected at least one swarm element")]
fn build_without_swarm_elements_panics() {
    Simulation::<WhiteNoiseAcceleration>::builder()
        .anchors(vec![Anchor::default()])
        .build()
        .expect("expected at least one swarm element");
}

#[test]
#[should_panic(expected = "expected at least one anchor")]
fn build_without_anchors_panics() {
    Simulation::<WhiteNoiseAcceleration>::builder()
        .swarm_elements(vec![SwarmElement::default()])
        .build()
        .expect("expected at least one anchor");
}

#[test]
fn build_with_defaults_sets() {
    let swarm_el: SwarmElement<WhiteNoiseAcceleration> = SwarmElement::default();
    let anchor = Anchor::default();

    let sim = Simulation::builder()
        .swarm_elements(vec![swarm_el.clone()])
        .anchors(vec![anchor.clone()])
        .build()
        .unwrap();

    assert_eq!(sim.swarm_elements.len(), 1);
    assert_eq!(sim.swarm_elements[0], swarm_el);
    assert_eq!(sim.anchors.len(), 1);
    assert_eq!(sim.anchors[0], anchor);
    assert!(sim.visualizer.is_none());
}

#[test]
fn empty_member_lists_are_refused() {
    let r = Simulation::<WhiteNoiseAcceleration>::builder()
        .swarm_elements(vec![])
        .anchors(vec![Anchor::default()])
        .build();
    assert!(r.is_err());
}

fn stationary_agent(name: &str, position: Vec3, n: usize) -> SwarmElement<WhiteNoiseAcceleration> {
    ranging_agent(name, position, n, 10_000)
}

fn ranging_agent(name: &str, position: Vec3, n: usize, sd_ranging: u64) -> SwarmElement<WhiteNoiseAcceleration> {
    let model =
        WhiteNoiseAcceleration::new(position, Vec3::zeros(), Vec3::zeros(), Vec3::zeros()).unwrap();
    let seed_box = BoundingBox::new(
        Vec3::new(position.x - M / 2, position.y - M / 2, position.z - M / 2),
        Vec3::new(position.x + M / 2, position.y + M / 2, position.z + M / 2),
    )
    .unwrap();
    let pf = ParticleFilter::new(&seed_box, n, 500).unwrap();
    SwarmElement::new(String::from(name), model, pf, 1_000, sd_ranging).unwrap()
}

fn three_anchors() -> Vec<Anchor> {
    vec![
        Anchor::new(Vec3::new(5 * M, 0, 0), 10_000).unwrap(),
        Anchor::new(Vec3::new(0, 5 * M, 0), 10_000).unwrap(),
        Anchor::new(Vec3::new(0, 0, 5 * M), 10_000).unwrap(),
    ]
}

#[test]
fn stationary_agent_converges_to_origin() {
    let n = 20_000;
    let mut sim = Simulation::builder()
        .swarm_elements(vec![stationary_agent("origin", Vec3::zeros(), n)])
        .anchors(three_anchors())
        .visualizer(RerunVisulization::new())
        .build()
        .unwrap();
    let mut rng = StdRng::seed_from_u64(3);
    for frame in 0..50 {
        let noise = noise_for(&sim, &mut rng);
        let ok = sim.step(100, &noise);
        assert_eq!(ok, vec![true]);
        let pf = &sim.swarm_elements[0].particle_filter;
        assert_eq!(pf.particles.len(), n);
        // ESS is at least tau * N after every step.
        assert!(!pf.needs_resample());
        assert!(pf.ess() * 1000 >= pf.tau_permille as u128 * n as u128);
        assert_eq!(sim.visualizer.unwrap().current_frame, frame + 1);
    }
    let agent = &sim.swarm_elements[0];
    assert_eq!(agent.dynamics_model.position(), Vec3::zeros());
    assert!(agent.estimation_error() < 50_000, "error {}", agent.estimation_error());
}

#[test]
fn cooperating_agents_keep_estimates_near_truth() {
    let a = ranging_agent("a", Vec3::new(M, 0, 0), 4_000, 50_000);
    let b = ranging_agent("b", Vec3::new(0, M, 0), 4_000, 50_000);
    let mut sim = Simulation::builder()
        .swarm_elements(vec![a, b])
        .anchors(three_anchors())
        .build()
        .unwrap();
    let mut rng = StdRng::seed_from_u64(5);
    for _ in 0..10 {
        let noise = noise_for(&sim, &mut rng);
        assert_eq!(sim.step(100, &noise), vec![true, true]);
    }
    for agent in sim.swarm_elements.iter() {
        assert!(agent.estimation_error() < 150_000);
        assert!(agent.prev_positions.est_position.is_some());
        assert_eq!(agent.prev_positions.true_position, Some(agent.dynamics_model.position()));
    }
}

#[test]
fn degenerate_agent_is_reported_and_others_go_on() {
    let good = stationary_agent("good", Vec3::zeros(), 2_000);
    // It stands a kilometre up the y axis, but all its particles lie a
    // kilometre along x: the anchors rule every one of them out, while the
    // range the other agent measures to it still fits where it is believed.
    let mut lost = stationary_agent("lost", Vec3::new(0, 1_000 * M, 0), 50);
    for p in lost.particle_filter.particles.iter_mut() {
        p.position = Vec3::new(1_000 * M, 0, 0);
    }
    let mut sim = Simulation::builder()
        .swarm_elements(vec![good, lost])
        .anchors(three_anchors())
        .build()
        .unwrap();
    let mut rng = StdRng::seed_from_u64(9);
    let noise = noise_for(&sim, &mut rng);
    let ok = sim.step(100, &noise);
    assert_eq!(ok, vec![true, false]);
    assert_eq!(sim.swarm_elements[1].est_position, Vec3::zeros());
    assert_eq!(sim.swarm_elements[1].prev_positions.est_position, None);
    assert!(sim.swarm_elements[0].prev_positions.est_position.is_some());
}
