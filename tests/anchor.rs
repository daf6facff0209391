use particle_filter::anchor::Anchor;
use particle_filter::dynamics_model::{DynamicsModel, WhiteNoiseAcceleration};
use particle_filter::enclosure::BoundingBox;
use particle_filter::error::ConstructionError;
use particle_filter::measurements::Measurements;
use particle_filter::geometry::{distance, Vec3};
use particle_filter::particle_filter::ParticleFilter;
use particle_filter::ranging::observe_range;
use particle_filter::swarm_element::SwarmElement;
use rand::rngs::StdRng;
use rand::SeedableRng;
use rand_distr::{Distribution, Normal};

const M: i64 = 1_000_000;

#[test]
fn anchor_test_new_anchor() {
    let position = Vec3::new(2 * M, 0, M);
    let sd_ranging_noise = 100_000;
    let anchor = Anchor::new(position, sd_ranging_noise).unwrap();

    assert_eq!(anchor.position.x, position.x);
    assert_eq!(anchor.position.y, position.y);
    assert_eq!(anchor.position.z, position.z);
    assert_eq!(anchor.sd_ranging_noise, sd_ranging_noise);
}

#[test]
fn anchor_rejects_zero_deviation() {
    let r = Anchor::new(Vec3::new(0, 0, 0), 0);
    assert_eq!(r, Err(ConstructionError::InvalidDeviation));
}

#[test]
fn anchor_rejects_position_out_of_range() {
    let r = Anchor::new(Vec3::new(i64::MAX, 0, 0), 10);
    assert_eq!(r, Err(ConstructionError::OutOfRange));
}

fn test_element(name: &str, position: Vec3, velocity: Vec3) -> SwarmElement<WhiteNoiseAcceleration> {
    let mean_a = Vec3::zeros();
    let sigma_a = Vec3::new(100_000, 100_000, 100_000);
    let dynamics_model = WhiteNoiseAcceleration::new(position, velocity, mean_a, sigma_a).unwrap();
    let enclosure = BoundingBox::new(Vec3::new(0, 0, 0), Vec3::new(5 * M, 5 * M, 5 * M)).unwrap();
    let particle_filter = ParticleFilter::new(&enclosure, 10, 500).unwrap();
    SwarmElement::new(String::from(name), dynamics_model, particle_filter, 100_000, 100_000)
        .unwrap()
}

#[test]
fn test_anchor_ranging() {
    let position = Vec3::new(2 * M, 0, M);
    let sd_ranging_noise = 100_000;
    let anchor = Anchor::new(position, sd_ranging_noise).unwrap();

    let swarm_element = test_element(
        "test_1",
        Vec3::new(3_300_000, 2_200_000, 1_100_000),
        Vec3::new(100_000, 100_000, 100_000),
    );

    let noise = Normal::new(0.0, sd_ranging_noise as f64).unwrap();
    let mut rng = StdRng::seed_from_u64(10);
    let num_samples = 100_000;
    let samples: Vec<f64> = (0..num_samples)
        .map(|_| anchor.ranging(&swarm_element, noise.sample(&mut rng).round() as i64) as f64)
        .collect();
    let empirical_mean = samples.iter().sum::<f64>() / num_samples as f64;
    let empirical_variance = samples
        .iter()
        .map(|x| (x - empirical_mean).powi(2))
        .sum::<f64>()
        / num_samples as f64;
    let expected_variance = (sd_ranging_noise as f64).powi(2);

    let true_range = distance(&anchor.position, &swarm_element.dynamics_model.position()) as f64;
    let mean_tolerance = 0.01 * M as f64;
    assert!((empirical_mean - true_range).abs() < mean_tolerance);

    let variance_tolerance = 0.01 * (M as f64) * (M as f64);
    assert!((expected_variance - empirical_variance).abs() < variance_tolerance);

    assert!(empirical_variance > 0.0);
}

#[test]
fn ranging_is_symmetric() {
    let anchor = Anchor::new(Vec3::new(2 * M, 0, M), 100_000).unwrap();
    let se = test_element("test_2", Vec3::new(-M, 3 * M, 0), Vec3::zeros());
    for noise in [-250_000i64, 0, 17, 400_000] {
        let from_anchor = anchor.ranging(&se, noise);
        let from_agent = observe_range(&se.dynamics_model.position(), &anchor.position, noise);
        assert_eq!(from_anchor, from_agent);
    }
}

#[test]
fn default_anchor_is_at_origin_with_unit_noise() {
    let a = Anchor::default();
    assert_eq!(a.position, Vec3::zeros());
    assert_eq!(a.sd_ranging_noise, 1_000_000);
}
