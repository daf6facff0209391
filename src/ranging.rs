use crate::geometry::{distance, dist_spec, floor_sqrt, isqrt, sq_dist_spec, Vec3};
use vstd::prelude::*;

verus! {

/// Largest standard deviation of one ranging-noise source, in micrometres.
pub const NOISE_SD_MAX: u64 = 0x80_0000_0000;

/// Largest standard deviation the likelihood accepts, in micrometres.
pub const SIGMA_MAX: u64 = 0x100_0000_0000;

/// Largest magnitude of an observed range, in micrometres.
pub const RANGE_MAX: i64 = 0x800_0000_0000;

/// Clamps a range into `[-RANGE_MAX, RANGE_MAX]`.
pub open spec fn clamp_range(v: int) -> int {
    if v < -RANGE_MAX {
        -RANGE_MAX as int
    } else if v > RANGE_MAX {
        RANGE_MAX as int
    } else {
        v
    }
}

/// The observed range between two points: true distance plus the drawn noise.
pub open spec fn range_spec(a: Vec3, b: Vec3, noise: int) -> int {
    clamp_range(dist_spec(a, b) + noise)
}

/// Standard deviation of the sum of two independent noises, rounded down.
pub open spec fn combined_sigma(sa: int, sb: int) -> int {
    floor_sqrt((sa * sa + sb * sb) as nat) as int
}

/// The observed range is symmetric: from `a` to `b` it is what it is from
/// `b` to `a` under the same noise draw, so both have the same distribution.
pub proof fn lemma_range_symmetric(a: Vec3, b: Vec3, noise: int)
    ensures
        range_spec(a, b, noise) == range_spec(b, a, noise),
{
    assert(sq_dist_spec(a, b) == sq_dist_spec(b, a)) by (nonlinear_arith);
}

/// Standard deviation of the sum of two independent ranging noises:
/// `sqrt(sa^2 + sb^2)`, rounded down.
pub fn combined_std(sa: u64, sb: u64) -> (r: u64)
    requires
        sa <= NOISE_SD_MAX,
        sb <= NOISE_SD_MAX,
    ensures
        r == combined_sigma(sa as int, sb as int),
        r <= SIGMA_MAX,
        (sa > 0 || sb > 0) ==> r > 0,
{
    let a = sa as u128;
    let b = sb as u128;
    assert(a * a <= 0x4000_0000_0000_0000_0000 && b * b <= 0x4000_0000_0000_0000_0000)
        by (nonlinear_arith)
        requires
            a <= 0x80_0000_0000,
            b <= 0x80_0000_0000,
    ;
    let n = a * a + b * b;
    let r = isqrt(n);
    assert(r * r <= n && n < (r + 1) * (r + 1));
    if r > 0x100_0000_0000 {
        assert(r * r > 0x1_0000_0000_0000_0000_0000) by (nonlinear_arith)
            requires
                r > 0x100_0000_0000,
        ;
    }
    if sa > 0 || sb > 0 {
        assert(n >= 1) by (nonlinear_arith)
            requires
                a > 0 || b > 0,
                n == a * a + b * b,
        ;
        if r == 0 {
            assert(n < 1) by (nonlinear_arith)
                requires
                    r == 0,
                    n < (r + 1) * (r + 1),
            ;
        }
    }
    r
}

/// The observed range from `a` to `b`: their distance plus the drawn noise.
pub fn observe_range(a: &Vec3, b: &Vec3, noise: i64) -> (r: i64)
    requires
        a.bounded(),
        b.bounded(),
    ensures
        r == range_spec(*a, *b, noise as int),
        -RANGE_MAX <= r <= RANGE_MAX,
{
    let d = distance(a, b) as i128 + noise as i128;
    if d < -(RANGE_MAX as i128) {
        -RANGE_MAX
    } else if d > RANGE_MAX as i128 {
        RANGE_MAX
    } else {
        d as i64
    }
}

} // verus!
