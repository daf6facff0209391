use particle_filter::dynamics_model::{DynamicsModel, WhiteNoiseAcceleration};
use particle_filter::enclosure::BoundingBox;
use particle_filter::error::ConstructionError;
use particle_filter::measurements::Measurements;
use particle_filter::geometry::{distance, Vec3};
use particle_filter::particle_filter::{ParticleFilter, WEIGHT_ONE};
use particle_filter::swarm_element::{PrevPositions, SwarmElement};
use rand::rngs::StdRng;
use rand::SeedableRng;
use rand_distr::{Distribution, Normal};

const M: i64 = 1_000_000;

fn model(position: Vec3, velocity: Vec3) -> WhiteNoiseAcceleration {
    let sigma_a = Vec3::new(100_000, 100_000, 100_000);
    WhiteNoiseAcceleration::new(position, velocity, Vec3::zeros(), sigma_a).unwrap()
}

fn filter(max: Vec3, n: usize) -> ParticleFilter {
    let bounding_box = BoundingBox::new(Vec3::zeros(), max).unwrap();
    ParticleFilter::new(&bounding_box, n, 500).unwrap()
}

#[test]
fn swarm_element_test_new_swarm_element() {
    let swarm_name = String::from("swarm_element_1");
    let position = Vec3::new(500_000, 500_000, 500_000);
    let velocity = Vec3::new(100_000, 100_000, 100_000);
    let num_particles = 10;

    let swarm_element = SwarmElement::new(
        swarm_name.clone(),
        model(position, velocity),
        filter(Vec3::new(M, M, M), num_particles),
        100_000,
        500_000,
    )
    .unwrap();

    assert_eq!(swarm_element.name, swarm_name);
    assert_eq!(swarm_element.dynamics_model.position(), position);
    assert_eq!(swarm_element.est_position, Vec3::zeros());
    assert_eq!(swarm_element.prev_positions.est_position, None);
    assert_eq!(swarm_element.prev_positions.true_position, None);
    assert_eq!(swarm_element.dynamics_model.velocity(), velocity);
    assert_eq!(swarm_element.particle_filter.particles.len(), 10);
    swarm_element
        .particle_filter
        .particles
        .iter()
        .for_each(|p| assert_eq!(p.weight, WEIGHT_ONE / num_particles as u64));
}

#[test]
fn swarm_element_rejects_zero_deviation() {
    let r = SwarmElement::new(
        String::from("x"),
        model(Vec3::zeros(), Vec3::zeros()),
        filter(Vec3::new(M, M, M), 3),
        0,
        500_000,
    );
    assert_eq!(r.err(), Some(ConstructionError::InvalidDeviation));
}

#[test]
fn swarm_element_test_update_est_position() {
    let mut swarm_element = SwarmElement::new(
        String::from("swarm_element_1"),
        model(Vec3::new(500_000, 500_000, 500_000), Vec3::new(100_000, 100_000, 100_000)),
        filter(Vec3::new(M, 2 * M, 3 * M), 100_000),
        100_000,
        500_000,
    )
    .unwrap();

    swarm_element.update_est_position().unwrap();

    let tolerance = 10_000;
    assert!((swarm_element.est_position.x - M / 2).abs() <= tolerance);
    assert!((swarm_element.est_position.y - M).abs() <= tolerance);
    assert!((swarm_element.est_position.z - 3 * M / 2).abs() <= tolerance);

    assert_eq!(swarm_element.prev_positions.est_position, Some(swarm_element.est_position));

    let first = swarm_element.est_position;
    swarm_element.particle_filter.particles[0].weight = WEIGHT_ONE;
    swarm_element.update_est_position().unwrap();
    assert_eq!(swarm_element.prev_positions.est_position, Some(first));
}

#[test]
fn test_swarm_element_ranging() {
    let enclosure = Vec3::new(5 * M, 5 * M, 5 * M);
    let sw1 = SwarmElement::new(
        String::from("swarm_element_1"),
        model(Vec3::new(500_000, 500_000, 500_000), Vec3::new(100_000, 100_000, 100_000)),
        filter(enclosure, 10),
        100_000,
        500_000,
    )
    .unwrap();
    let sw2 = SwarmElement::new(
        String::from("swarm_element_2"),
        model(Vec3::new(1_100_000, 4_200_000, 2_100_000), Vec3::new(200_000, 200_000, 200_000)),
        filter(enclosure, 10),
        100_000,
        500_000,
    )
    .unwrap();

    let measurement_std_deviation: f64 = 100_000.0;
    let noise = Normal::new(0.0, measurement_std_deviation).unwrap();
    let mut rng = StdRng::seed_from_u64(10);
    let num_samples = 100_000;
    let samples: Vec<f64> = (0..num_samples)
        .map(|_| sw1.ranging(&sw2, noise.sample(&mut rng).round() as i64) as f64)
        .collect();
    let empirical_mean = samples.iter().sum::<f64>() / num_samples as f64;
    let empirical_variance = samples
        .iter()
        .map(|x| (x - empirical_mean).powi(2))
        .sum::<f64>()
        / num_samples as f64;
    let expected_variance = measurement_std_deviation * measurement_std_deviation;

    let true_range =
        distance(&sw1.dynamics_model.position(), &sw2.dynamics_model.position()) as f64;
    assert!((empirical_mean - true_range).abs() < 0.01 * M as f64);
    assert!((expected_variance - empirical_variance).abs() < 0.01 * (M as f64) * (M as f64));
    assert!(empirical_variance > 0.0);
}

#[test]
fn test_estimation_error_zero_when_estimate_equals_truth() {
    let position = Vec3::new(500_000, 500_000, 500_000);
    let mut swarm_element = SwarmElement::new(
        String::from("test"),
        model(position, Vec3::new(100_000, 100_000, 100_000)),
        filter(Vec3::new(M, 2 * M, 3 * M), 100_000),
        100_000,
        500_000,
    )
    .unwrap();

    swarm_element.est_position = position;
    let err = swarm_element.estimation_error();
    assert!(err == 0, "expected 0, got {err}");
}

#[test]
fn test_estimation_error_is_euclidean_norm_of_difference() {
    let mut swarm_element = SwarmElement::new(
        String::from("test"),
        model(Vec3::new(M, 2 * M, 3 * M), Vec3::new(100_000, 100_000, 100_000)),
        filter(Vec3::new(M, 2 * M, 3 * M), 100_000),
        100_000,
        500_000,
    )
    .unwrap();

    // truth at (1,2,3) m, estimate at (4,6,3) m: the difference is (-3,-4,0) m, 5 m long
    swarm_element.est_position = Vec3::new(4 * M, 6 * M, 3 * M);
    let expected = 5 * M as u64;
    let err = swarm_element.estimation_error();
    assert!(err == expected, "got {err}, expected {expected}");
}

#[test]
fn step_moves_truth_and_particles() {
    let mut se = SwarmElement::new(
        String::from("mover"),
        model(Vec3::zeros(), Vec3::new(M, 0, 0)),
        filter(Vec3::new(M, M, M), 3),
        100_000,
        500_000,
    )
    .unwrap();
    let before: Vec<Vec3> = se.particle_filter.particles.iter().map(|p| p.position).collect();
    let accels = vec![Vec3::zeros(); 3];
    se.step(100, Vec3::zeros(), Vec3::new(0, 1_000_000, 0), &accels);
    assert_eq!(se.prev_positions.true_position, Some(Vec3::zeros()));
    assert_eq!(se.dynamics_model.position(), Vec3::new(100_000, 0, 0));
    for (p, b) in se.particle_filter.particles.iter().zip(before.iter()) {
        assert_eq!(p.position, Vec3::new(b.x + 100_000, b.y + 100_000, b.z));
    }
    assert_eq!(se.get_ranging_velocity(Vec3::new(5, -5, 0)), Vec3::new(M + 5, -5, 0));
}

#[test]
fn default_swarm_element_is_valid() {
    let se: SwarmElement<WhiteNoiseAcceleration> = SwarmElement::default();
    assert_eq!(se.name, "");
    assert_eq!(se.particle_filter.particles.len(), 1);
    assert_eq!(se.prev_positions, PrevPositions::default());
    assert_eq!(se.sd_ranging_noise, 1_000_000);
}
