use crate::error::ConstructionError;
use crate::geometry::{clamp_coord, clamp_to_coord, floor_div, Vec3};
use vstd::prelude::*;

verus! {

/// Largest time step, in milliseconds (about 17 minutes).
pub const DT_MAX: u64 = 0x10_0000;

/// Largest magnitude of a velocity (micrometres per second) or an acceleration
/// (micrometres per second squared).
pub const RATE_MAX: i64 = 0x100_0000_0000;

/// Clamps a rate into `[-RATE_MAX, RATE_MAX]`.
pub open spec fn clamp_rate(v: int) -> int {
    if v < -RATE_MAX {
        -RATE_MAX as int
    } else if v > RATE_MAX {
        RATE_MAX as int
    } else {
        v
    }
}

/// Displacement `v * dt + a * dt^2 / 2` over `dt` milliseconds, rounded down.
pub open spec fn displacement(v: int, a: int, dt: int) -> int {
    (2000 * clamp_rate(v) * dt + clamp_rate(a) * dt * dt) / 2_000_000
}

/// Velocity gain `a * dt` over `dt` milliseconds, rounded down.
pub open spec fn velocity_gain(a: int, dt: int) -> int {
    (clamp_rate(a) * dt) / 1000
}

/// The kinematic position update on one axis.
pub open spec fn advance_axis(p: int, v: int, a: int, dt: int) -> int {
    clamp_coord(p + displacement(v, a, dt))
}

/// The kinematic position update `p + v * dt + a * dt^2 / 2`, kept in range.
pub open spec fn advance(p: Vec3, v: Vec3, a: Vec3, dt: int) -> Vec3 {
    Vec3 {
        x: advance_axis(p.x as int, v.x as int, a.x as int, dt) as i64,
        y: advance_axis(p.y as int, v.y as int, a.y as int, dt) as i64,
        z: advance_axis(p.z as int, v.z as int, a.z as int, dt) as i64,
    }
}

/// The kinematic velocity update `v + a * dt`, kept in range.
pub open spec fn accelerate(v: Vec3, a: Vec3, dt: int) -> Vec3 {
    Vec3 {
        x: clamp_rate(clamp_rate(v.x as int) + velocity_gain(a.x as int, dt)) as i64,
        y: clamp_rate(clamp_rate(v.y as int) + velocity_gain(a.y as int, dt)) as i64,
        z: clamp_rate(clamp_rate(v.z as int) + velocity_gain(a.z as int, dt)) as i64,
    }
}

/// Every component lies within `[-RATE_MAX, RATE_MAX]`.
pub open spec fn rate_bounded(v: Vec3) -> bool {
    &&& -RATE_MAX <= v.x <= RATE_MAX
    &&& -RATE_MAX <= v.y <= RATE_MAX
    &&& -RATE_MAX <= v.z <= RATE_MAX
}

fn clamp_to_rate(v: i128) -> (r: i64)
    ensures
        r == clamp_rate(v as int),
{
    if v < -(RATE_MAX as i128) {
        -RATE_MAX
    } else if v > RATE_MAX as i128 {
        RATE_MAX
    } else {
        v as i64
    }
}

fn advance_one(p: i64, v: i64, a: i64, dt: u64) -> (r: i64)
    requires
        -0x100_0000_0000 <= p <= 0x100_0000_0000,
        dt <= DT_MAX,
    ensures
        r == advance_axis(p as int, v as int, a as int, dt as int),
{
    let v = clamp_to_rate(v as i128) as i128;
    let a = clamp_to_rate(a as i128) as i128;
    let t = dt as i128;
    assert(-0x80_0000_0000_0000_0000 <= 2000 * v * t <= 0x80_0000_0000_0000_0000)
        by (nonlinear_arith)
        requires
            -0x100_0000_0000 <= v <= 0x100_0000_0000,
            0 <= t <= 0x10_0000,
    ;
    assert(-0x1000_0000_0000_0000 <= a * t <= 0x1000_0000_0000_0000) by (nonlinear_arith)
        requires
            -0x100_0000_0000 <= a <= 0x100_0000_0000,
            0 <= t <= 0x10_0000,
    ;
    assert(-0x100_0000_0000_0000_0000_0000 <= (a * t) * t <= 0x100_0000_0000_0000_0000_0000)
        by (nonlinear_arith)
        requires
            -0x1000_0000_0000_0000 <= a * t <= 0x1000_0000_0000_0000,
            0 <= t <= 0x10_0000,
    ;
    let d = floor_div(2000 * v * t + a * t * t, 2_000_000);
    clamp_to_coord(p as i128 + d)
}

fn accelerate_one(v: i64, a: i64, dt: u64) -> (r: i64)
    requires
        dt <= DT_MAX,
    ensures
        r == clamp_rate(clamp_rate(v as int) + velocity_gain(a as int, dt as int)),
{
    let v = clamp_to_rate(v as i128) as i128;
    let a = clamp_to_rate(a as i128) as i128;
    let t = dt as i128;
    assert(-0x1000_0000_0000_0000 <= a * t <= 0x1000_0000_0000_0000) by (nonlinear_arith)
        requires
            -0x100_0000_0000 <= a <= 0x100_0000_0000,
            0 <= t <= 0x10_0000,
    ;
    clamp_to_rate(v + floor_div(a * t, 1000))
}

/// Position of a point after `dt` milliseconds at velocity `v` under
/// acceleration `a`.
pub fn advance_point(p: &Vec3, v: &Vec3, a: &Vec3, dt: u64) -> (r: Vec3)
    requires
        p.bounded(),
        dt <= DT_MAX,
    ensures
        r == advance(*p, *v, *a, dt as int),
        r.bounded(),
{
    Vec3 {
        x: advance_one(p.x, v.x, a.x, dt),
        y: advance_one(p.y, v.y, a.y, dt),
        z: advance_one(p.z, v.z, a.z, dt),
    }
}

/// What an agent needs of a motion model: its true position and velocity, a
/// step of its own state, and the same spatial update applied to any position
/// and velocity. Each step and each prediction consumes one drawn
/// acceleration.
pub trait DynamicsModel: Sized {
    /// The model's state is well formed.
    spec fn wf_model(&self) -> bool;

    /// The true position.
    spec fn pos_spec(&self) -> Vec3;

    /// The true velocity.
    spec fn vel_spec(&self) -> Vec3;

    /// The state after `dt` milliseconds under the drawn acceleration `a`.
    spec fn stepped(&self, dt: int, a: Vec3) -> Self;

    /// Where `position`, moving at `velocity`, is after `dt` milliseconds
    /// under the drawn acceleration `a`.
    spec fn predicted(&self, dt: int, position: Vec3, velocity: Vec3, a: Vec3) -> Vec3;

    /// A well-formed model holds a representable position.
    proof fn lemma_position_bounded(&self)
        requires
            self.wf_model(),
        ensures
            self.pos_spec().bounded(),
    ;

    /// Advances the state by `dt` milliseconds under the drawn acceleration.
    fn step(&mut self, dt: u64, a: Vec3)
        requires
            old(self).wf_model(),
            dt <= DT_MAX,
        ensures
            final(self).wf_model(),
            *final(self) == old(self).stepped(dt as int, a),
    ;

    fn position(&self) -> (r: Vec3)
        ensures
            r == self.pos_spec(),
    ;

    fn velocity(&self) -> (r: Vec3)
        ensures
            r == self.vel_spec(),
    ;

    /// The spatial update applied to an arbitrary position and velocity,
    /// leaving the model itself unchanged.
    fn predict_next_state(&self, dt: u64, position: Vec3, velocity: Vec3, a: Vec3) -> (r: Vec3)
        requires
            position.bounded(),
            dt <= DT_MAX,
        ensures
            r == self.predicted(dt as int, position, velocity, a),
            r.bounded(),
    ;
}

/// A point moving with white-noise acceleration: each step draws an
/// acceleration per axis from an independent normal distribution with the
/// model's mean and standard deviation.
#[derive(Clone, Copy, Debug, PartialEq, Eq)]
pub struct WhiteNoiseAcceleration {
    pub pos: Vec3,
    pub vel: Vec3,
    pub mean_a: Vec3,
    pub sigma_a: Vec3,
}

impl WhiteNoiseAcceleration {
    pub open spec fn wf(self) -> bool {
        &&& self.pos.bounded()
        &&& rate_bounded(self.vel)
        &&& rate_bounded(self.mean_a)
        &&& rate_bounded(self.sigma_a)
        &&& self.sigma_a.x >= 0 && self.sigma_a.y >= 0 && self.sigma_a.z >= 0
    }

    /// Builds the model; every standard deviation must be non-negative and
    /// every value within range.
    pub fn new(pos: Vec3, vel: Vec3, mean_a: Vec3, sigma_a: Vec3) -> (r: Result<
        Self,
        ConstructionError,
    >)
        ensures
            r is Err <==> !(pos.bounded() && rate_bounded(vel) && rate_bounded(mean_a)
                && rate_bounded(sigma_a) && sigma_a.x >= 0 && sigma_a.y >= 0 && sigma_a.z >= 0),
            r matches Err(e) ==> (e == ConstructionError::InvalidDeviation <==> (sigma_a.x < 0
                || sigma_a.y < 0 || sigma_a.z < 0)),
            r matches Ok(m) ==> m.wf() && m.pos == pos && m.vel == vel && m.mean_a == mean_a
                && m.sigma_a == sigma_a,
    {
        if sigma_a.x < 0 || sigma_a.y < 0 || sigma_a.z < 0 {
            return Err(ConstructionError::InvalidDeviation);
        }
        if !pos.is_bounded() || !is_rate_bounded(&vel) || !is_rate_bounded(&mean_a)
            || !is_rate_bounded(&sigma_a) {
            return Err(ConstructionError::OutOfRange);
        }
        Ok(WhiteNoiseAcceleration { pos, vel, mean_a, sigma_a })
    }
}

impl DynamicsModel for WhiteNoiseAcceleration {
    open spec fn wf_model(&self) -> bool {
        self.wf()
    }

    open spec fn pos_spec(&self) -> Vec3 {
        self.pos
    }

    open spec fn vel_spec(&self) -> Vec3 {
        self.vel
    }

    /// `pos += vel * dt + a * dt^2 / 2; vel += a * dt`.
    open spec fn stepped(&self, dt: int, a: Vec3) -> Self {
        WhiteNoiseAcceleration {
            pos: advance(self.pos, self.vel, a, dt),
            vel: accelerate(self.vel, a, dt),
            mean_a: self.mean_a,
            sigma_a: self.sigma_a,
        }
    }

    open spec fn predicted(&self, dt: int, position: Vec3, velocity: Vec3, a: Vec3) -> Vec3 {
        advance(position, velocity, a, dt)
    }

    proof fn lemma_position_bounded(&self) {
    }

    fn step(&mut self, dt: u64, a: Vec3) {
        let pos = advance_point(&self.pos, &self.vel, &a, dt);
        let vel = Vec3 {
            x: accelerate_one(self.vel.x, a.x, dt),
            y: accelerate_one(self.vel.y, a.y, dt),
            z: accelerate_one(self.vel.z, a.z, dt),
        };
        self.pos = pos;
        self.vel = vel;
    }

    fn position(&self) -> (r: Vec3) {
        self.pos
    }

    fn velocity(&self) -> (r: Vec3) {
        self.vel
    }

    fn predict_next_state(&self, dt: u64, position: Vec3, velocity: Vec3, a: Vec3) -> (r: Vec3) {
        advance_point(&position, &velocity, &a, dt)
    }
}

impl Default for WhiteNoiseAcceleration {
    fn default() -> (r: Self)
        ensures
            r.wf(),
            r.pos == Vec3::zeros_spec() && r.vel == Vec3::zeros_spec(),
            r.mean_a == Vec3::zeros_spec() && r.sigma_a == Vec3::zeros_spec(),
    {
        WhiteNoiseAcceleration {
            pos: Vec3::zeros(),
            vel: Vec3::zeros(),
            mean_a: Vec3::zeros(),
            sigma_a: Vec3::zeros(),
        }
    }
}

fn is_rate_bounded(v: &Vec3) -> (r: bool)
    ensures
        r == rate_bounded(*v),
{
    -RATE_MAX <= v.x && v.x <= RATE_MAX && -RATE_MAX <= v.y && v.y <= RATE_MAX && -RATE_MAX
        <= v.z && v.z <= RATE_MAX
}

/// A step of length zero leaves position and velocity unchanged, whatever
/// the state, the noise parameters and the acceleration drawn; so does a
/// prediction of length zero.
pub proof fn lemma_zero_step_is_identity(m: WhiteNoiseAcceleration, p: Vec3, v: Vec3, a: Vec3)
    requires
        m.wf(),
        p.bounded(),
    ensures
        m.stepped(0, a) == m,
        m.predicted(0, p, v, a) == p,
{
    lemma_zero_advance(m.pos, m.vel, a);
    lemma_zero_advance(p, v, a);
    assert(clamp_rate(m.vel.x as int) == m.vel.x && clamp_rate(m.vel.y as int) == m.vel.y
        && clamp_rate(m.vel.z as int) == m.vel.z);
    assert(velocity_gain(a.x as int, 0) == 0 && velocity_gain(a.y as int, 0) == 0
        && velocity_gain(a.z as int, 0) == 0);
}

proof fn lemma_zero_advance(p: Vec3, v: Vec3, a: Vec3)
    requires
        p.bounded(),
    ensures
        advance(p, v, a, 0) == p,
{
    assert(2000 * clamp_rate(v.x as int) * 0 == 0 && clamp_rate(a.x as int) * 0 * 0 == 0);
    assert(2000 * clamp_rate(v.y as int) * 0 == 0 && clamp_rate(a.y as int) * 0 * 0 == 0);
    assert(2000 * clamp_rate(v.z as int) * 0 == 0 && clamp_rate(a.z as int) * 0 * 0 == 0);
}

} // verus!
