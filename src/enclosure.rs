use crate::error::ConstructionError;
use crate::geometry::{sq_dist, sq_dist_spec, Vec3, COORD_MAX};
use crate::random::random_in;
use vstd::prelude::*;

verus! {

/// How many candidate points a ball draws before it gives up and returns its
/// centre; each candidate lands inside with probability above one half.
pub const BALL_ATTEMPTS: u64 = 64;

/// A region that seeds a filter's initial particles.
pub trait Enclosure {
    /// The region holds point `p`.
    spec fn contains(&self, p: Vec3) -> bool;

    /// The region is well formed.
    spec fn wf(&self) -> bool;

    /// A random point of the region.
    fn sample(&self) -> (r: Vec3)
        requires
            self.wf(),
        ensures
            self.contains(r),
            r.bounded(),
    ;
}

/// An axis-aligned box `[min, max)` on each axis, sampled uniformly.
#[derive(Clone, Copy, Debug, PartialEq, Eq)]
pub struct BoundingBox {
    pub min: Vec3,
    pub max: Vec3,
}

impl BoundingBox {
    /// Builds the box; each lower bound must lie below the upper bound.
    pub fn new(min: Vec3, max: Vec3) -> (r: Result<Self, ConstructionError>)
        ensures
            r is Ok <==> (min.bounded() && max.bounded() && min.x < max.x && min.y < max.y
                && min.z < max.z),
            r matches Ok(b) ==> b.min == min && b.max == max && b.wf(),
            r matches Err(e) ==> (e == ConstructionError::EmptyRegion <==> (min.x >= max.x
                || min.y >= max.y || min.z >= max.z)),
    {
        if min.x >= max.x || min.y >= max.y || min.z >= max.z {
            return Err(ConstructionError::EmptyRegion);
        }
        if !min.is_bounded() || !max.is_bounded() {
            return Err(ConstructionError::OutOfRange);
        }
        Ok(BoundingBox { min, max })
    }
}

impl Enclosure for BoundingBox {
    open spec fn contains(&self, p: Vec3) -> bool {
        &&& self.min.x <= p.x < self.max.x
        &&& self.min.y <= p.y < self.max.y
        &&& self.min.z <= p.z < self.max.z
    }

    open spec fn wf(&self) -> bool {
        &&& self.min.bounded()
        &&& self.max.bounded()
        &&& self.min.x < self.max.x && self.min.y < self.max.y && self.min.z < self.max.z
    }

    fn sample(&self) -> (r: Vec3) {
        let x = random_in(self.min.x, self.max.x - 1);
        let y = random_in(self.min.y, self.max.y - 1);
        let z = random_in(self.min.z, self.max.z - 1);
        Vec3 { x, y, z }
    }
}

/// A solid ball around `origo`, sampled by drawing points of its bounding
/// cube until one falls inside.
#[derive(Clone, Copy, Debug, PartialEq, Eq)]
pub struct Sphere {
    pub radius: i64,
    pub origo: Vec3,
}

impl Sphere {
    /// Builds the ball; the radius must be positive and its bounding cube
    /// representable.
    pub fn new(radius: i64, origo: Vec3) -> (r: Result<Self, ConstructionError>)
        ensures
            r is Ok <==> (radius > 0 && origo.bounded() && -COORD_MAX <= origo.x - radius
                && origo.x + radius <= COORD_MAX && -COORD_MAX <= origo.y - radius && origo.y
                + radius <= COORD_MAX && -COORD_MAX <= origo.z - radius && origo.z + radius
                <= COORD_MAX),
            r matches Ok(b) ==> b.radius == radius && b.origo == origo && b.wf(),
            r matches Err(e) ==> (e == ConstructionError::EmptyRegion <==> radius <= 0),
    {
        if radius <= 0 {
            return Err(ConstructionError::EmptyRegion);
        }
        if !origo.is_bounded() || radius > COORD_MAX {
            return Err(ConstructionError::OutOfRange);
        }
        if origo.x - radius < -COORD_MAX || origo.x + radius > COORD_MAX || origo.y - radius
            < -COORD_MAX || origo.y + radius > COORD_MAX || origo.z - radius < -COORD_MAX
            || origo.z + radius > COORD_MAX {
            return Err(ConstructionError::OutOfRange);
        }
        Ok(Sphere { radius, origo })
    }
}

impl Enclosure for Sphere {
    open spec fn contains(&self, p: Vec3) -> bool {
        sq_dist_spec(p, self.origo) <= self.radius * self.radius
    }

    open spec fn wf(&self) -> bool {
        &&& 0 < self.radius <= COORD_MAX
        &&& self.origo.bounded()
        &&& -COORD_MAX <= self.origo.x - self.radius && self.origo.x + self.radius <= COORD_MAX
        &&& -COORD_MAX <= self.origo.y - self.radius && self.origo.y + self.radius <= COORD_MAX
        &&& -COORD_MAX <= self.origo.z - self.radius && self.origo.z + self.radius <= COORD_MAX
    }

    fn sample(&self) -> (r: Vec3) {
        let mut candidates: Vec<Vec3> = Vec::new();
        let mut attempt: u64 = 0;
        while attempt < BALL_ATTEMPTS
            invariant
                self.wf(),
                forall|k: int| 0 <= k < candidates.len() ==> (#[trigger] candidates@[k]).bounded(),
            decreases BALL_ATTEMPTS - attempt,
        {
            let p = Vec3 {
                x: random_in(self.origo.x - self.radius, self.origo.x + self.radius),
                y: random_in(self.origo.y - self.radius, self.origo.y + self.radius),
                z: random_in(self.origo.z - self.radius, self.origo.z + self.radius),
            };
            candidates.push(p);
            attempt = attempt + 1;
        }
        let r = self.accept(&candidates);
        proof {
            lemma_first_inside(*self, candidates@);
        }
        r
    }
}

/// The first of `c` that lies in the ball, or its centre when none does.
pub open spec fn first_inside(b: Sphere, c: Seq<Vec3>) -> Vec3
    decreases c.len(),
{
    if c.len() == 0 {
        b.origo
    } else if b.contains(c[0]) {
        c[0]
    } else {
        first_inside(b, c.drop_first())
    }
}

proof fn lemma_first_inside(b: Sphere, c: Seq<Vec3>)
    requires
        b.wf(),
        forall|k: int| 0 <= k < c.len() ==> (#[trigger] c[k]).bounded(),
    ensures
        b.contains(first_inside(b, c)),
        first_inside(b, c).bounded(),
    decreases c.len(),
{
    if c.len() == 0 {
        assert(sq_dist_spec(b.origo, b.origo) == 0);
        assert(b.radius * b.radius >= 0) by (nonlinear_arith);
    } else if !b.contains(c[0]) {
        let rest = c.drop_first();
        assert forall|k: int| 0 <= k < rest.len() implies (#[trigger] rest[k]).bounded() by {
            assert(rest[k] == c[k + 1]);
        }
        lemma_first_inside(b, rest);
    }
}

impl Sphere {
    /// Rejection step of ball sampling: the first candidate inside the ball,
    /// or the centre when none is.
    pub fn accept(&self, candidates: &Vec<Vec3>) -> (r: Vec3)
        requires
            self.wf(),
            forall|k: int| 0 <= k < candidates.len() ==> (#[trigger] candidates@[k]).bounded(),
        ensures
            r == first_inside(*self, candidates@),
    {
        let rad = self.radius as u128;
        assert(rad * rad <= 0x1_0000_0000_0000_0000_0000) by (nonlinear_arith)
            requires
                rad <= 0x100_0000_0000,
        ;
        let rr = rad * rad;
        let n = candidates.len();
        let mut i: usize = 0;
        assert(candidates@.subrange(0, n as int) =~= candidates@);
        while i < n
            invariant
                self.wf(),
                rr == self.radius * self.radius,
                n == candidates.len(),
                forall|k: int| 0 <= k < n ==> (#[trigger] candidates@[k]).bounded(),
                i <= n,
                first_inside(*self, candidates@) == first_inside(
                    *self,
                    candidates@.subrange(i as int, n as int),
                ),
            decreases n - i,
        {
            proof {
                let rest = candidates@.subrange(i as int, n as int);
                assert(rest[0] == candidates@[i as int]);
                assert(rest.drop_first() =~= candidates@.subrange(i + 1, n as int));
            }
            if sq_dist(&candidates[i], &self.origo) <= rr {
                return candidates[i];
            }
            i = i + 1;
        }
        assert(candidates@.subrange(n as int, n as int).len() == 0);
        self.origo
    }
}

} // verus!
