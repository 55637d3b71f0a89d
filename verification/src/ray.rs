//! A ray: an origin point and an (unnormalized) direction.

use vstd::prelude::*;
use crate::vec3::{
    Vec3, Point3, vadd, vscale, scale_fits, add_fits, in_coord_range, in_dir_range,
    nondegenerate,
};

verus! {

#[derive(Clone, Copy, PartialEq, Eq, Structural, Debug)]
pub struct Ray {
    pub origin: Point3,
    pub direction: Vec3,
}

/// The point a ray reaches at parameter `t`.
pub open spec fn ray_at(r: Ray, t: int) -> Point3 {
    vadd(r.origin, vscale(r.direction, t))
}

/// A ray the tracer can work with: origin inside the world, direction
/// bounded and long enough to carry a direction.
pub open spec fn ray_wf(r: Ray) -> bool {
    &&& in_coord_range(r.origin)
    &&& in_dir_range(r.direction)
    &&& nondegenerate(r.direction)
}

impl Ray {
    pub fn new(origin: Point3, direction: Vec3) -> (r: Ray)
        ensures
            r == (Ray { origin, direction }),
    {
        Ray { origin, direction }
    }

    /// Evaluate the ray at parameter `t`.
    pub fn at(&self, t: i64) -> (p: Point3)
        requires
            scale_fits(self.direction, t as int),
            add_fits(self.origin, vscale(self.direction, t as int)),
        ensures
            p == ray_at(*self, t as int),
    {
        self.origin.add(self.direction.scale(t))
    }
}

} // verus!
