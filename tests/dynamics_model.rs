use particle_filter::dynamics_model::{DynamicsModel, WhiteNoiseAcceleration};
use particle_filter::error::ConstructionError;
use particle_filter::geometry::Vec3;
use rand::rngs::StdRng;
use rand::SeedableRng;
use rand_distr::{Distribution, Normal};

fn floor_div(n: i128, d: i128) -> i128 {
    n.div_euclid(d)
}

/// The kinematic update written out: p + floor((2000 v dt + a dt^2) / 2e6).
fn expected_position(p: i64, v: i64, a: i64, dt: u64) -> i64 {
    let t = dt as i128;
    (p as i128 + floor_div(2000 * v as i128 * t + a as i128 * t * t, 2_000_000)) as i64
}

fn expected_velocity(v: i64, a: i64, dt: u64) -> i64 {
    (v as i128 + floor_div(a as i128 * dt as i128, 1000)) as i64
}

fn draw(rng: &mut StdRng, mean: &Vec3, sigma: &Vec3) -> Vec3 {
    let nx = Normal::new(mean.x as f64, sigma.x as f64).unwrap();
    let ny = Normal::new(mean.y as f64, sigma.y as f64).unwrap();
    let nz = Normal::new(mean.z as f64, sigma.z as f64).unwrap();
    Vec3::new(
        nx.sample(rng).round() as i64,
        ny.sample(rng).round() as i64,
        nz.sample(rng).round() as i64,
    )
}

#[test]
fn test_new_white_noise_acceleration() {
    let pos = Vec3::new(100_000, 200_000, 300_000);
    let vel = Vec3::new(1_000_000, 2_000_000, 3_000_000);
    let mean_a = Vec3::new(10_000_000, 20_000_000, 30_000_000);
    let sigma_a = Vec3::new(10_000, 20_000, 30_000);

    let model = WhiteNoiseAcceleration::new(pos, vel, mean_a, sigma_a).unwrap();

    assert_eq!(model.position(), pos);
    assert_eq!(model.velocity(), vel);

    assert_eq!(model.mean_a.x, mean_a.x);
    assert_eq!(model.mean_a.y, mean_a.y);
    assert_eq!(model.mean_a.z, mean_a.z);

    assert_eq!(model.sigma_a.x, sigma_a.x);
    assert_eq!(model.sigma_a.y, sigma_a.y);
    assert_eq!(model.sigma_a.z, sigma_a.z);
}

#[test]
fn white_noise_acceleration_rejects_negative_deviation() {
    let r = WhiteNoiseAcceleration::new(
        Vec3::zeros(),
        Vec3::zeros(),
        Vec3::zeros(),
        Vec3::new(1, -1, 1),
    );
    assert_eq!(r, Err(ConstructionError::InvalidDeviation));
}

#[test]
fn step_updates_pos_and_vel_as_expected() {
    let pos0 = Vec3::new(1_000_000, 2_000_000, 3_000_000);
    let vel0 = Vec3::new(500_000, -250_000, 100_000);
    let mean_a = Vec3::zeros();
    let sigma_a = Vec3::new(1_000_000, 2_000_000, 500_000);

    let mut model = WhiteNoiseAcceleration::new(pos0, vel0, mean_a, sigma_a).unwrap();

    let mut rng = StdRng::seed_from_u64(42);
    let a = draw(&mut rng, &mean_a, &sigma_a);
    let dt = 100;

    model.step(dt, a);

    let got_pos = model.position();
    let got_vel = model.velocity();

    assert_eq!(got_pos.x, expected_position(pos0.x, vel0.x, a.x, dt));
    assert_eq!(got_pos.y, expected_position(pos0.y, vel0.y, a.y, dt));
    assert_eq!(got_pos.z, expected_position(pos0.z, vel0.z, a.z, dt));

    assert_eq!(got_vel.x, expected_velocity(vel0.x, a.x, dt));
    assert_eq!(got_vel.y, expected_velocity(vel0.y, a.y, dt));
    assert_eq!(got_vel.z, expected_velocity(vel0.z, a.z, dt));
}

#[test]
fn step_exact_values() {
    // 1 m/s for 100 ms moves 100 mm; 2 m/s^2 adds 10 mm and 0.2 m/s.
    let mut model = WhiteNoiseAcceleration::new(
        Vec3::zeros(),
        Vec3::new(1_000_000, 0, -1_000_000),
        Vec3::zeros(),
        Vec3::zeros(),
    )
    .unwrap();
    model.step(100, Vec3::new(2_000_000, 0, 0));
    assert_eq!(model.position(), Vec3::new(110_000, 0, -100_000));
    assert_eq!(model.velocity(), Vec3::new(1_200_000, 0, -1_000_000));
}

#[test]
fn step_with_zero_dt_does_not_change_state() {
    let pos0 = Vec3::new(1_000_000, 2_000_000, 3_000_000);
    let vel0 = Vec3::new(500_000, -250_000, 100_000);
    let mean_a = Vec3::zeros();
    let sigma_a = Vec3::new(1_000_000, 1_000_000, 1_000_000);

    let mut model = WhiteNoiseAcceleration::new(pos0, vel0, mean_a, sigma_a).unwrap();

    let mut rng = StdRng::seed_from_u64(7);
    let a = draw(&mut rng, &mean_a, &sigma_a);
    model.step(0, a);

    assert_eq!(model.position(), pos0);
    assert_eq!(model.velocity(), vel0);
}

#[test]
fn predict_next_state_matches_manual_formula() {
    let mean_a = Vec3::zeros();
    let sigma_a = Vec3::new(1_000_000, 2_000_000, 500_000);
    let model = WhiteNoiseAcceleration::new(Vec3::zeros(), Vec3::zeros(), mean_a, sigma_a).unwrap();

    let pos0 = Vec3::new(1_000_000, 2_000_000, 3_000_000);
    let vel0 = Vec3::new(300_000, -200_000, 100_000);
    let dt = 100;

    let mut rng = StdRng::seed_from_u64(42);
    let a = draw(&mut rng, &mean_a, &sigma_a);

    let expected = Vec3::new(
        expected_position(pos0.x, vel0.x, a.x, dt),
        expected_position(pos0.y, vel0.y, a.y, dt),
        expected_position(pos0.z, vel0.z, a.z, dt),
    );

    let got = model.predict_next_state(dt, pos0, vel0, a);
    assert_eq!(got, expected, "got {got:?}, expected {expected:?}");
    assert_eq!(model.position(), Vec3::zeros());
}

#[test]
fn predict_next_state_zero_dt_returns_position() {
    let mean_a = Vec3::zeros();
    let sigma_a = Vec3::new(1_000_000, 1_000_000, 1_000_000);
    let model = WhiteNoiseAcceleration::new(Vec3::zeros(), Vec3::zeros(), mean_a, sigma_a).unwrap();

    let pos0 = Vec3::new(-3_000_000, 500_000, 8_000_000);
    let vel0 = Vec3::new(9_000_000, -2_000_000, 1_000_000);
    let mut rng = StdRng::seed_from_u64(7);
    let a = draw(&mut rng, &mean_a, &sigma_a);

    let got = model.predict_next_state(0, pos0, vel0, a);
    assert_eq!(got, pos0);
}
