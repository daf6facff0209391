use vstd::arithmetic::div_mod::lemma_fundamental_div_mod;
use vstd::arithmetic::div_mod::lemma_fundamental_div_mod_converse_div;
use vstd::prelude::*;

verus! {

/// Largest magnitude of a coordinate, in micrometres (2^40, about 1.1e6 km).
pub const COORD_MAX: i64 = 0x100_0000_0000;

/// Bound above every squared distance handed to [`isqrt`].
pub const SQRT_INPUT_LIMIT: u128 = 0x10_0000_0000_0000_0000_0000_0000;

/// A point or vector in three dimensions, in fixed-point units.
#[derive(Clone, Copy, Debug, PartialEq, Eq)]
pub struct Vec3 {
    pub x: i64,
    pub y: i64,
    pub z: i64,
}

impl Vec3 {
    /// Every component lies within `[-COORD_MAX, COORD_MAX]`.
    pub open spec fn bounded(self) -> bool {
        &&& -COORD_MAX <= self.x <= COORD_MAX
        &&& -COORD_MAX <= self.y <= COORD_MAX
        &&& -COORD_MAX <= self.z <= COORD_MAX
    }

    pub fn new(x: i64, y: i64, z: i64) -> (r: Self)
        ensures
            r.x == x,
            r.y == y,
            r.z == z,
    {
        Vec3 { x, y, z }
    }

    pub open spec fn zeros_spec() -> Self {
        Vec3 { x: 0, y: 0, z: 0 }
    }

    pub fn zeros() -> (r: Self)
        ensures
            r == Self::zeros_spec(),
            r.bounded(),
    {
        Vec3 { x: 0, y: 0, z: 0 }
    }

    pub fn is_bounded(&self) -> (r: bool)
        ensures
            r == self.bounded(),
    {
        -COORD_MAX <= self.x && self.x <= COORD_MAX && -COORD_MAX <= self.y && self.y <= COORD_MAX
            && -COORD_MAX <= self.z && self.z <= COORD_MAX
    }
}

pub open spec fn square(v: int) -> int {
    v * v
}

/// Squared Euclidean distance between two points.
pub open spec fn sq_dist_spec(a: Vec3, b: Vec3) -> int {
    square(a.x - b.x) + square(a.y - b.y) + square(a.z - b.z)
}

/// `r` is the floor of the square root of `n`.
pub open spec fn is_floor_sqrt(n: int, r: int) -> bool {
    0 <= r && r * r <= n < (r + 1) * (r + 1)
}

/// Floor of the square root of `n`.
pub open spec fn floor_sqrt(n: nat) -> nat
    decreases n,
{
    if n == 0 {
        0
    } else {
        let r = floor_sqrt((n - 1) as nat);
        if (r + 1) * (r + 1) <= n {
            r + 1
        } else {
            r
        }
    }
}

/// Euclidean distance rounded down to a whole unit.
pub open spec fn dist_spec(a: Vec3, b: Vec3) -> int {
    floor_sqrt(sq_dist_spec(a, b) as nat) as int
}

/// Clamps a value into `[-COORD_MAX, COORD_MAX]`.
pub open spec fn clamp_coord(v: int) -> int {
    if v < -COORD_MAX {
        -COORD_MAX as int
    } else if v > COORD_MAX {
        COORD_MAX as int
    } else {
        v
    }
}

pub proof fn lemma_floor_sqrt(n: nat)
    ensures
        is_floor_sqrt(n as int, floor_sqrt(n) as int),
    decreases n,
{
    if n > 0 {
        lemma_floor_sqrt((n - 1) as nat);
        let r = floor_sqrt((n - 1) as nat) as int;
        assert((r + 1) * (r + 1) < (r + 2) * (r + 2)) by (nonlinear_arith)
            requires
                r >= 0,
        ;
    }
}

pub proof fn lemma_floor_sqrt_unique(n: int, r: int)
    requires
        n >= 0,
        is_floor_sqrt(n, r),
    ensures
        r == floor_sqrt(n as nat),
{
    lemma_floor_sqrt(n as nat);
    let s = floor_sqrt(n as nat) as int;
    if r < s {
        assert((r + 1) * (r + 1) <= s * s) by (nonlinear_arith)
            requires
                0 <= r,
                r + 1 <= s,
        ;
    } else if s < r {
        assert((s + 1) * (s + 1) <= r * r) by (nonlinear_arith)
            requires
                0 <= s,
                s + 1 <= r,
        ;
    }
}

/// Floor of the square root, by bisection.
pub fn isqrt(n: u128) -> (r: u64)
    requires
        n < SQRT_INPUT_LIMIT,
    ensures
        r == floor_sqrt(n as nat),
        is_floor_sqrt(n as int, r as int),
{
    let mut lo: u128 = 0;
    let mut hi: u128 = 0x4_0000_0000_0000;
    assert(hi * hi == SQRT_INPUT_LIMIT);
    while hi - lo > 1
        invariant
            lo < hi <= 0x4_0000_0000_0000,
            lo * lo <= n,
            n < hi * hi,
        decreases hi - lo,
    {
        let mid = lo + (hi - lo) / 2;
        assert(mid * mid <= 0x10_0000_0000_0000_0000_0000_0000) by (nonlinear_arith)
            requires
                mid <= 0x4_0000_0000_0000,
        ;
        if mid * mid <= n {
            lo = mid;
        } else {
            hi = mid;
        }
    }
    proof {
        lemma_floor_sqrt_unique(n as int, lo as int);
    }
    lo as u64
}

/// Squared distance between two bounded points.
pub fn sq_dist(a: &Vec3, b: &Vec3) -> (r: u128)
    requires
        a.bounded(),
        b.bounded(),
    ensures
        r == sq_dist_spec(*a, *b),
        r < 0x10_0000_0000_0000_0000_0000,
{
    let dx = (a.x as i128) - (b.x as i128);
    let dy = (a.y as i128) - (b.y as i128);
    let dz = (a.z as i128) - (b.z as i128);
    assert(dx * dx <= 0x4_0000_0000_0000_0000_0000 && dy * dy <= 0x4_0000_0000_0000_0000_0000
        && dz * dz <= 0x4_0000_0000_0000_0000_0000) by (nonlinear_arith)
        requires
            -0x200_0000_0000 <= dx <= 0x200_0000_0000,
            -0x200_0000_0000 <= dy <= 0x200_0000_0000,
            -0x200_0000_0000 <= dz <= 0x200_0000_0000,
    ;
    assert(dx * dx >= 0 && dy * dy >= 0 && dz * dz >= 0) by (nonlinear_arith);
    (dx * dx + dy * dy + dz * dz) as u128
}

/// Euclidean distance between two bounded points, rounded down.
pub fn distance(a: &Vec3, b: &Vec3) -> (r: u64)
    requires
        a.bounded(),
        b.bounded(),
    ensures
        r == dist_spec(*a, *b),
        r <= 0x400_0000_0000,
{
    let d2 = sq_dist(a, b);
    let r = isqrt(d2);
    assert(r <= 0x400_0000_0000) by (nonlinear_arith)
        requires
            r * r <= d2,
            d2 < 0x10_0000_0000_0000_0000_0000,
            r >= 0,
    ;
    r
}

/// Division rounding toward negative infinity, for a positive divisor.
pub fn floor_div(n: i128, d: i128) -> (r: i128)
    requires
        d > 0,
        -0x4000_0000_0000_0000_0000_0000_0000_0000 < n < 0x4000_0000_0000_0000_0000_0000_0000_0000,
        d < 0x4000_0000_0000_0000_0000_0000_0000_0000,
    ensures
        r == n / d,
{
    if n >= 0 {
        n / d
    } else {
        let m = -n;
        let q = (m + d - 1) / d;
        proof {
            lemma_fundamental_div_mod(m + d - 1, d as int);
            assert((-q) * d == -(d * q)) by (nonlinear_arith);
            let rem = n - (-q) * d;
            assert(0 <= rem < d);
            lemma_fundamental_div_mod_converse_div(n as int, d as int, -q as int, rem as int);
        }
        -q
    }
}

/// Clamps a value into the coordinate range.
pub fn clamp_to_coord(v: i128) -> (r: i64)
    ensures
        r == clamp_coord(v as int),
{
    if v < -(COORD_MAX as i128) {
        -COORD_MAX
    } else if v > COORD_MAX as i128 {
        COORD_MAX
    } else {
        v as i64
    }
}

} // verus!
