use particle_filter::dynamics_model::WhiteNoiseAcceleration;
use particle_filter::enclosure::{BoundingBox, Enclosure, Sphere};
use particle_filter::error::{ConstructionError, DegenerateFilterError};
use particle_filter::geometry::Vec3;
use particle_filter::particle_filter::{Observation, Particle, ParticleFilter, WEIGHT_ONE};
use particle_filter::likelihood::observation_cost;
use particle_filter::ranging::observe_range;
use particle_filter::resampling::systematic_indices;

const M: i64 = 1_000_000;

fn total(pf: &ParticleFilter) -> u64 {
    pf.particles.iter().map(|p| p.weight).sum()
}

fn unit_box() -> BoundingBox {
    BoundingBox::new(Vec3::new(0, 0, 0), Vec3::new(M, M, M)).unwrap()
}

fn filter_with(positions: &[Vec3], weights: &[u64]) -> ParticleFilter {
    filter_with_tau(positions, weights, 500)
}

fn filter_with_tau(positions: &[Vec3], weights: &[u64], tau_permille: u64) -> ParticleFilter {
    let particles = positions
        .iter()
        .zip(weights.iter())
        .map(|(p, w)| Particle::new(*p, *w))
        .collect();
    ParticleFilter { particles, tau_permille }
}

#[test]
fn particle_filter_test_particle_new() {
    let position = Vec3::new(1, 2, 3);
    let particle = Particle::new(position, 100);
    assert_eq!(particle.position, Vec3::new(1, 2, 3));
    assert_eq!(particle.weight, 100);
}

#[test]
fn particle_filter_test_particles_new() {
    let x_bounds = (0, M);
    let y_bounds = (0, M);
    let z_bounds = (0, M);
    let bounding_box = unit_box();

    let particle_filter = ParticleFilter::new(&bounding_box, 100, 500).unwrap();

    for particle in particle_filter.particles.iter() {
        assert!(x_bounds.0 <= particle.position.x);
        assert!(x_bounds.1 >= particle.position.x);

        assert!(y_bounds.0 <= particle.position.y);
        assert!(y_bounds.1 >= particle.position.y);

        assert!(z_bounds.0 <= particle.position.z);
        assert!(z_bounds.1 >= particle.position.z);
    }
}

#[test]
fn test_mean_uniform_particle_distribution_bounding_box() {
    let bounding_box =
        BoundingBox::new(Vec3::new(0, 0, 0), Vec3::new(10 * M, 20 * M, 30 * M)).unwrap();
    let num_particles = 100_000;
    let particle_filter = ParticleFilter::new(&bounding_box, num_particles, 500).unwrap();

    let n = num_particles as f64;
    let x_mean = particle_filter.particles.iter().map(|p| p.position.x as f64).sum::<f64>() / n;
    let y_mean = particle_filter.particles.iter().map(|p| p.position.y as f64).sum::<f64>() / n;
    let z_mean = particle_filter.particles.iter().map(|p| p.position.z as f64).sum::<f64>() / n;

    let tolerance = 0.1 * M as f64;
    assert!((5.0 * M as f64 - x_mean).abs() <= tolerance);
    assert!((10.0 * M as f64 - y_mean).abs() <= tolerance);
    assert!((15.0 * M as f64 - z_mean).abs() <= tolerance);
}

#[test]
fn test_mean_uniform_particle_distribution_sphere() {
    let origo = Vec3::new(M, 2 * M, 3 * M);
    let sphere = Sphere::new(4 * M, origo).unwrap();
    let num_particles = 100_000;
    let particle_filter = ParticleFilter::new(&sphere, num_particles, 500).unwrap();

    let n = num_particles as f64;
    let x_mean = particle_filter.particles.iter().map(|p| p.position.x as f64).sum::<f64>() / n;
    let y_mean = particle_filter.particles.iter().map(|p| p.position.y as f64).sum::<f64>() / n;
    let z_mean = particle_filter.particles.iter().map(|p| p.position.z as f64).sum::<f64>() / n;

    let tolerance = 0.1 * M as f64;
    assert!((sphere.origo.x as f64 - x_mean).abs() <= tolerance);
    assert!((sphere.origo.y as f64 - y_mean).abs() <= tolerance);
    assert!((sphere.origo.z as f64 - z_mean).abs() <= tolerance);

    for p in particle_filter.particles.iter() {
        let d2 = (p.position.x - origo.x).pow(2) as i128
            + (p.position.y - origo.y).pow(2) as i128
            + (p.position.z - origo.z).pow(2) as i128;
        assert!(d2 <= (4 * M as i128).pow(2));
    }
}

#[test]
fn particle_filter_test_normalize_weitghts() {
    let mut particle_filter = ParticleFilter::new(&unit_box(), 4, 500).unwrap();
    for i in 0..particle_filter.particles.len() {
        particle_filter.particles[i].weight = 1 + i as u64;
    }
    particle_filter.normalize_weights().unwrap();
    let sum = total(&particle_filter);
    assert!(sum <= WEIGHT_ONE && sum > WEIGHT_ONE - 4);
    assert_eq!(particle_filter.particles[0].weight, WEIGHT_ONE / 10);
}

#[test]
fn box_samples_stay_inside_and_vary() {
    let b = BoundingBox::new(Vec3::new(-5, 10, 0), Vec3::new(5, 20, 1000)).unwrap();
    let mut xs = std::collections::BTreeSet::new();
    for _ in 0..2000 {
        let p = b.sample();
        assert!(-5 <= p.x && p.x < 5);
        assert!(10 <= p.y && p.y < 20);
        assert!(0 <= p.z && p.z < 1000);
        xs.insert(p.x);
    }
    assert!(xs.len() > 1);
    assert!(xs.contains(&4));
}

#[test]
fn empty_regions_are_refused() {
    let r = BoundingBox::new(Vec3::new(0, 0, 0), Vec3::new(1, 0, 1));
    assert_eq!(r, Err(ConstructionError::EmptyRegion));
    assert_eq!(Sphere::new(0, Vec3::zeros()), Err(ConstructionError::EmptyRegion));
    assert_eq!(
        Sphere::new(10, Vec3::new(1 << 40, 0, 0)),
        Err(ConstructionError::OutOfRange)
    );
}

#[test]
fn bad_population_or_threshold_is_refused() {
    assert_eq!(
        ParticleFilter::new(&unit_box(), 0, 500).err(),
        Some(ConstructionError::BadCount)
    );
    assert_eq!(
        ParticleFilter::new(&unit_box(), 10, 0).err(),
        Some(ConstructionError::OutOfRange)
    );
    assert_eq!(
        ParticleFilter::new(&unit_box(), 10, 1001).err(),
        Some(ConstructionError::OutOfRange)
    );
}

#[test]
fn weights_sum_to_one_after_initialize_and_resample() {
    for n in [1usize, 3, 7, 1000] {
        let mut pf = ParticleFilter::new(&unit_box(), n, 500).unwrap();
        let sum = total(&pf);
        assert!(sum <= WEIGHT_ONE && sum > WEIGHT_ONE - n as u64);
        pf.tau_permille = 1000;
        for (i, p) in pf.particles.iter_mut().enumerate() {
            p.weight = (i as u64 * 7919) % 1000;
        }
        if total(&pf) > 0 {
            assert!(pf.resample().unwrap());
            let sum = total(&pf);
            assert!(sum <= WEIGHT_ONE && sum > WEIGHT_ONE - n as u64);
            assert_eq!(pf.particles.len(), n);
        }
    }
}

#[test]
fn zero_weight_is_degenerate() {
    let mut pf = filter_with(&[Vec3::zeros(), Vec3::new(1, 1, 1)], &[0, 0]);
    assert_eq!(pf.normalize_weights(), Err(DegenerateFilterError));
    assert_eq!(pf.resample(), Err(DegenerateFilterError));
    assert_eq!(pf.posterior_mean(), Err(DegenerateFilterError));
    assert_eq!(pf.particles.len(), 2);
}

#[test]
fn systematic_selection_exact() {
    // Weights 1, 2, 3, 4 (total 10) with offset 3: draw points (3 + 10 j) / 4
    // are 0.75, 3.25, 5.75, 8.25 against steps [0,1) [1,3) [3,6) [6,10).
    let pf = filter_with(&[Vec3::zeros(); 4], &[1, 2, 3, 4]);
    assert_eq!(systematic_indices(&pf.particles, 3), vec![0, 2, 2, 3]);
    assert_eq!(systematic_indices(&pf.particles, 0), vec![0, 1, 2, 3]);
    assert_eq!(systematic_indices(&pf.particles, 9), vec![1, 2, 3, 3]);
}

#[test]
fn resample_keeps_population_size_with_duplicates() {
    // Duplicates are kept on purpose: the population size stays N.
    let positions: Vec<Vec3> = (0..5).map(|i| Vec3::new(i, 0, 0)).collect();
    let mut pf = filter_with(&positions, &[0, 10, 0, 30, 0]);
    pf.resample_with_offset(7);
    assert_eq!(pf.particles.len(), 5);
    let xs: Vec<i64> = pf.particles.iter().map(|p| p.position.x).collect();
    assert_eq!(xs, vec![1, 1, 3, 3, 3]);
    assert!(pf.particles.iter().all(|p| p.weight == WEIGHT_ONE / 5));
}

#[test]
fn resample_degenerate_concentrates() {
    let positions: Vec<Vec3> = (0..6).map(|i| Vec3::new(i * 100, -i, 7)).collect();
    for u0 in [0u64, 1, 500, 999] {
        let mut pf = filter_with(&positions, &[0, 0, 0, 1000, 0, 0]);
        pf.resample_with_offset(u0);
        assert!(pf.particles.iter().all(|p| p.position == positions[3]));
        assert_eq!(pf.particles.len(), 6);
    }
}

#[test]
fn resample_uniform_selects_each_once() {
    let positions: Vec<Vec3> = (0..8).map(|i| Vec3::new(i, 2 * i, 3 * i)).collect();
    let w = WEIGHT_ONE / 8;
    for u0 in [0u64, 1, w * 3, w * 8 - 1] {
        let mut pf = filter_with(&positions, &[w; 8]);
        pf.resample_with_offset(u0);
        let got: Vec<Vec3> = pf.particles.iter().map(|p| p.position).collect();
        assert_eq!(got, positions);
    }
}

#[test]
fn resample_selection_frequency_is_unbiased() {
    // Over every offset u0 in 0..W, each particle is chosen exactly N * w_i
    // times in all: with a uniform offset it is chosen N * w_i / W times on
    // average.
    let positions: Vec<Vec3> = (0..4).map(|i| Vec3::new(i, 0, 0)).collect();
    let weights = [100u64, 200, 300, 400];
    let total: u64 = weights.iter().sum();
    let mut counts = [0u64; 4];
    for u0 in 0..total {
        let mut pf = filter_with_tau(&positions, &weights, 1000);
        pf.resample_with_offset(u0);
        for p in pf.particles.iter() {
            counts[p.position.x as usize] += 1;
        }
    }
    for i in 0..4 {
        assert_eq!(counts[i], 4 * weights[i]);
    }
}

#[test]
fn resample_with_random_offsets_is_unbiased() {
    let positions: Vec<Vec3> = (0..4).map(|i| Vec3::new(i, 0, 0)).collect();
    let weights = [100u64, 200, 300, 400];
    let mut counts = [0u64; 4];
    let trials = 20_000;
    for _ in 0..trials {
        let mut pf = filter_with_tau(&positions, &weights, 1000);
        assert!(pf.resample().unwrap());
        for p in pf.particles.iter() {
            counts[p.position.x as usize] += 1;
        }
    }
    // Each count varies by at most one per trial around its mean; the band
    // below is more than five standard deviations wide.
    for i in 0..4 {
        let expected = trials as f64 * 4.0 * weights[i] as f64 / 1000.0;
        assert!((counts[i] as f64 - expected).abs() < 0.05 * expected);
    }
}

#[test]
fn effective_sample_size_and_gate() {
    let half = WEIGHT_ONE / 2;
    let pf = filter_with(&[Vec3::zeros(); 4], &[half, half, 0, 0]);
    assert_eq!(pf.ess(), 2);
    // ESS / N == 0.5 == tau: the comparison is strict, so no resampling.
    assert!(!pf.needs_resample());
    let pf = filter_with(&[Vec3::zeros(); 4], &[half, half / 2, half / 2, 0]);
    assert!(!pf.needs_resample());
    let pf = filter_with(&[Vec3::zeros(); 4], &[WEIGHT_ONE, 1, 1, 1]);
    assert_eq!(pf.ess(), 1);
    assert!(pf.needs_resample());
    let pf = filter_with(&[Vec3::zeros(); 4], &[WEIGHT_ONE / 4; 4]);
    assert_eq!(pf.ess(), 4);
}

#[test]
fn posterior_mean_is_weighted_average() {
    let pf = filter_with(
        &[Vec3::new(0, 0, 0), Vec3::new(4_000, -8_000, 3)],
        &[WEIGHT_ONE / 4, 3 * (WEIGHT_ONE / 4)],
    );
    assert_eq!(pf.posterior_mean(), Ok(Vec3::new(3_000, -6_000, 2)));
}

#[test]
fn update_weights_adds_residual_cost() {
    let anchor = Vec3::new(0, 0, 0);
    let mut pf = filter_with(
        &[Vec3::new(3_000, 4_000, 0), Vec3::new(0, 6_000, 0)],
        &[WEIGHT_ONE / 2, WEIGHT_ONE / 2],
    );
    pf.update_weights(5_000, anchor, 1_000);
    assert_eq!(pf.particles[0].cost, 0);
    assert_eq!(pf.particles[1].cost, observation_cost(-1_000, 1_000));
    assert_eq!(pf.particles[0].weight, WEIGHT_ONE / 2);
    pf.normalize_weights().unwrap();
    // Weights now stand in the ratio 1 : exp(-1/2).
    let ratio = pf.particles[1].weight as f64 / pf.particles[0].weight as f64;
    assert!((ratio - (-0.5f64).exp()).abs() < 5e-4);
    assert!(pf.particles.iter().all(|p| p.cost == 0));
}

#[test]
fn weight_order_follows_summed_residuals() {
    // Truth at the origin, anchors 100 mm along x and y, sigma 1 mm: the
    // particle whose squared residuals sum to less weighs more.
    let anchors = [Vec3::new(100_000, 0, 0), Vec3::new(0, 100_000, 0)];
    let positions = [Vec3::new(3_215, 3_215, 0), Vec3::new(4_474, 0, 0)];
    let mut pf = filter_with(&positions, &[WEIGHT_ONE / 2, WEIGHT_ONE / 2]);
    let obs: Vec<Observation> = anchors
        .iter()
        .map(|a| Observation {
            range: observe_range(&Vec3::zeros(), a, 0),
            reference: *a,
            sigma: 1_000,
        })
        .collect();
    pf.fuse(&obs);
    assert!(pf.particles[0].cost < pf.particles[1].cost);
    pf.normalize_weights().unwrap();
    assert!(pf.particles[0].weight > pf.particles[1].weight);
    let residual = |p: &Vec3| -> f64 {
        anchors
            .iter()
            .map(|a| {
                let r = observe_range(&Vec3::zeros(), a, 0) - observe_range(p, a, 0);
                (r as f64 / 1_000.0).powi(2)
            })
            .sum()
    };
    let want = (-0.5 * (residual(&positions[0]) - residual(&positions[1]))).exp();
    let got = pf.particles[0].weight as f64 / pf.particles[1].weight as f64;
    assert!((got / want - 1.0).abs() < 1e-3, "{got} vs {want}");
}

#[test]
fn resample_is_gated_by_effective_sample_size() {
    let positions: Vec<Vec3> = (0..4).map(|i| Vec3::new(i, 0, 0)).collect();
    // ESS / N is 0.83 here: above tau = 0.5, so the population is retained.
    let mut pf = filter_with_tau(&positions, &[100, 200, 300, 400], 500);
    let before = pf.clone();
    assert_eq!(pf.resample(), Ok(false));
    assert_eq!(pf, before);
    // ESS / N == 0.5 == tau exactly: retained, the comparison is strict.
    let half = WEIGHT_ONE / 2;
    let mut pf = filter_with_tau(&positions, &[half, half, 0, 0], 500);
    assert_eq!(pf.resample(), Ok(false));
    // Below tau: resampled.
    let mut pf = filter_with_tau(&positions, &[WEIGHT_ONE, 1, 1, 1], 500);
    assert_eq!(pf.resample(), Ok(true));
    assert!(pf.particles.iter().all(|p| p.position == positions[0]));
}

#[test]
fn true_position_particle_keeps_largest_weight() {
    let truth = Vec3::new(200_000, -100_000, 50_000);
    let anchors = [
        Vec3::new(5 * M, 0, 0),
        Vec3::new(0, 5 * M, 0),
        Vec3::new(0, 0, 5 * M),
    ];
    let positions: Vec<Vec3> = vec![
        Vec3::new(0, 0, 0),
        Vec3::new(210_000, -100_000, 50_000),
        truth,
        Vec3::new(-M, M, M),
        Vec3::new(200_000, -90_000, 50_000),
    ];
    let n = positions.len() as u64;
    let mut pf = filter_with(&positions, &vec![WEIGHT_ONE / n; positions.len()]);
    let obs: Vec<Observation> = anchors
        .iter()
        .map(|a| Observation { range: observe_range(&truth, a, 0), reference: *a, sigma: 20_000 })
        .collect();
    pf.fuse(&obs);
    pf.normalize_weights().unwrap();
    let best = pf.particles[2].weight;
    assert!(pf.particles.iter().all(|p| p.weight <= best));
    assert!(pf.particles[3].weight < best);
}

#[test]
fn prediction_moves_particles_and_keeps_weights() {
    let mut pf = filter_with(&[Vec3::zeros(), Vec3::new(10, 10, 10)], &[5, 7]);
    let v = Vec3::new(1_000_000, 0, 0);
    let accels = vec![Vec3::zeros(), Vec3::new(0, 2_000_000, 0)];
    pf.update_position(&WhiteNoiseAcceleration::default(), 100, v, &accels);
    assert_eq!(pf.particles[0].position, Vec3::new(100_000, 0, 0));
    assert_eq!(pf.particles[1].position, Vec3::new(100_010, 10_010, 10));
    assert_eq!(pf.particles[0].weight, 5);
    assert_eq!(pf.particles[1].weight, 7);
}

#[test]
fn default_filter_has_one_particle() {
    let pf = ParticleFilter::default();
    assert_eq!(pf.particles.len(), 1);
    assert_eq!(pf.particles[0].weight, WEIGHT_ONE);
    assert_eq!(pf.tau_permille, 500);
}

#[test]
fn ball_accepts_first_candidate_inside() {
    let ball = Sphere::new(10, Vec3::new(100, 0, 0)).unwrap();
    let outside = Vec3::new(110, 1, 0);
    let inside = Vec3::new(106, 8, 0);
    let also_inside = Vec3::new(100, 0, 0);
    assert_eq!(ball.accept(&vec![outside, inside, also_inside]), inside);
    assert_eq!(ball.accept(&vec![outside, outside]), ball.origo);
    assert_eq!(ball.accept(&vec![]), ball.origo);
}
