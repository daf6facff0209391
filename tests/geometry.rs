use particle_filter::geometry::{distance, floor_div, isqrt, sq_dist, Vec3};
use particle_filter::likelihood::{
    accumulate_cost, likelihood_factor, observation_cost, COST_MAX, COST_ONE,
};
use particle_filter::ranging::combined_std;

#[test]
fn floor_square_roots() {
    assert_eq!(isqrt(0), 0);
    assert_eq!(isqrt(24), 4);
    assert_eq!(isqrt(25), 5);
    assert_eq!(isqrt(1u128 << 80), 1u64 << 40);
}

#[test]
fn distances_between_points() {
    let a = Vec3::new(1_000_000, 2_000_000, 3_000_000);
    let b = Vec3::new(4_000_000, 6_000_000, 3_000_000);
    assert_eq!(sq_dist(&a, &b), 25_000_000_000_000);
    assert_eq!(distance(&a, &b), 5_000_000);
    assert_eq!(distance(&b, &a), 5_000_000);
}

#[test]
fn division_rounds_down() {
    assert_eq!(floor_div(7, 2), 3);
    assert_eq!(floor_div(-7, 2), -4);
    assert_eq!(floor_div(-8, 2), -4);
}

#[test]
fn combined_deviation_adds_variances() {
    assert_eq!(combined_std(3_000, 4_000), 5_000);
    assert_eq!(combined_std(10_000, 10_000), 14_142);
}

#[test]
fn observation_cost_values() {
    // err^2 / sigma^2 times 47274, rounded down.
    assert_eq!(observation_cost(0, 1_000), 0);
    assert_eq!(observation_cost(1_000, 1_000), 47_274);
    assert_eq!(observation_cost(-1_000, 1_000), 47_274);
    assert_eq!(observation_cost(3_000, 1_000), 425_466);
    assert_eq!(observation_cost(1 << 43, 1), COST_MAX);
    assert_eq!(accumulate_cost(COST_MAX - 1, 5), COST_MAX);
    assert_eq!(accumulate_cost(7, 5), 12);
}

#[test]
fn likelihood_factor_values() {
    let one = 1u64 << 32;
    assert_eq!(likelihood_factor(0), one);
    assert_eq!(likelihood_factor(COST_ONE), one / 2);
    assert_eq!(likelihood_factor(3 * COST_ONE), one / 8);
    assert_eq!(likelihood_factor(COST_ONE / 2), 3_037_000_500);
    assert_eq!(likelihood_factor(40 * COST_ONE), 0);
    for c in [1u64, 777, 4096, 30_000, 65_535, 65_537, 200_000, 1_000_000] {
        assert!(likelihood_factor(c) <= likelihood_factor(c - 1));
    }
}

#[test]
fn likelihood_matches_gaussian() {
    // The factor of an observation's cost is exp(-err^2 / (2 sigma^2)) within 0.05 %.
    let one = (1u64 << 32) as f64;
    for err in [0i64, 100, 500, 1_000, 1_500, 2_000, 3_000, 4_000, 5_000] {
        let got = likelihood_factor(observation_cost(err, 1_000)) as f64 / one;
        let e = err as f64 / 1_000.0;
        let want = (-0.5 * e * e).exp();
        assert!((got - want).abs() <= 5e-4 * want + 2.0 / one, "err {err}: {got} vs {want}");
    }
}
