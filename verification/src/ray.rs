//! A parametric ray: origin plus direction, evaluated at a scalar parameter.

use vstd::prelude::*;
use crate::fp::{fits, fp_mul_spec};
use crate::vec3::Vec3;

verus! {

/// A half-line in space: `origin + t * direction` for `t >= 0`.
#[derive(Clone, Copy, PartialEq, Eq, Structural, Debug)]
pub struct Ray {
    pub origin: Vec3,
    pub direction: Vec3,
}

/// Exact componentwise value of `ray.at(t)`.
pub open spec fn at_spec(r: Ray, t: int) -> (int, int, int) {
    (
        r.origin.x + fp_mul_spec(r.direction.x as int, t),
        r.origin.y + fp_mul_spec(r.direction.y as int, t),
        r.origin.z + fp_mul_spec(r.direction.z as int, t),
    )
}

/// The products and sums of `ray.at(t)` fit in a scalar.
pub open spec fn at_fits(r: Ray, t: int) -> bool {
    &&& fits(fp_mul_spec(r.direction.x as int, t))
    &&& fits(fp_mul_spec(r.direction.y as int, t))
    &&& fits(fp_mul_spec(r.direction.z as int, t))
    &&& fits(at_spec(r, t).0)
    &&& fits(at_spec(r, t).1)
    &&& fits(at_spec(r, t).2)
}

impl Ray {
    pub fn new(origin: Vec3, direction: Vec3) -> (r: Ray)
        ensures
            r.origin == origin,
            r.direction == direction,
    {
        Ray { origin, direction }
    }

    /// The point at parameter `t` along the ray.
    pub fn at(&self, t: i64) -> (p: Vec3)
        requires
            at_fits(*self, t as int),
        ensures
            p.x == at_spec(*self, t as int).0,
            p.y == at_spec(*self, t as int).1,
            p.z == at_spec(*self, t as int).2,
    {
        self.origin.add(self.direction.scale(t))
    }
}

} // verus!
