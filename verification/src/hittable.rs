//! The record of a ray-surface intersection.

use vstd::prelude::*;
use crate::fixed::{lemma_fmul_bound, fmul_wide, COORD_LIMIT, DIR_LIMIT};
use crate::vec3::{
    Vec3, Point3, vneg, vdot, in_coord_range, in_unit_range, in_dir_range, nondegenerate,
    UNIT_LIMIT,
};
use crate::ray::{Ray, ray_wf};
use crate::material::Material;

verus! {

/// Everything the shading step needs to know about one intersection:
/// where, the oriented surface normal, the ray parameter, which side was
/// struck, and the surface's material.
#[derive(Clone, Copy, PartialEq, Eq, Structural, Debug)]
pub struct HitRecord {
    pub p: Point3,
    pub normal: Vec3,
    pub t: i64,
    pub front_face: bool,
    pub material: Material,
}

/// A record the shading step can rely on: the point is inside the world,
/// the normal is at unit scale and carries a direction, and the material's
/// parameters are sound.
pub open spec fn hit_record_wf(h: HitRecord) -> bool {
    &&& in_coord_range(h.p)
    &&& in_unit_range(h.normal)
    &&& nondegenerate(h.normal)
    &&& h.material.wf()
}

/// Anything a ray can strike. Each implementor names its own
/// well-formedness and the exact mathematical outcome of its intersection
/// test, and its `hit` is held to that outcome; new primitives join the
/// tracer by implementing this contract.
pub trait Hittable {
    /// The shape is one the tracer's fixed-point arithmetic can handle.
    spec fn shape_wf(&self) -> bool;

    /// The exact outcome of the intersection test on the window `(lo, hi)`.
    spec fn hit_spec(&self, r: Ray, lo: int, hi: int) -> Option<HitRecord>;

    /// Nearest valid intersection with the ray, strictly inside the
    /// window.
    fn hit(&self, r: &Ray, t_min: i64, t_max: i64) -> (res: Option<HitRecord>)
        requires
            self.shape_wf(),
            ray_wf(*r),
            0 <= t_min,
            t_min <= t_max,
            t_max <= COORD_LIMIT,
        ensures
            res == self.hit_spec(*r, t_min as int, t_max as int),
            (res matches Some(h) ==> hit_record_wf(h) && t_min < h.t < t_max),
    ;
}

impl HitRecord {
    pub fn new(p: &Point3, t: i64, material: Material) -> (r: HitRecord)
        ensures
            r == (HitRecord {
                p: *p,
                normal: Vec3 { x: 0, y: 0, z: 0 },
                t,
                front_face: false,
                material,
            }),
    {
        HitRecord { p: *p, normal: Vec3::new_empty(), t, front_face: false, material }
    }

    /// Point the stored normal against the incoming ray: keep the outward
    /// normal when the ray arrives from outside the surface, flip it when
    /// the ray arrives from inside.
    pub fn set_face_normal(&mut self, r: &Ray, outward_normal: &Vec3)
        requires
            in_unit_range(*outward_normal),
            in_dir_range(r.direction),
        ensures
            final(self).front_face == (vdot(r.direction, *outward_normal) < 0),
            final(self).normal == (if vdot(r.direction, *outward_normal) < 0 {
                *outward_normal
            } else {
                vneg(*outward_normal)
            }),
            final(self).p == old(self).p,
            final(self).t == old(self).t,
            final(self).material == old(self).material,
    {
        proof {
            lemma_fmul_bound(r.direction.x as int, outward_normal.x as int, DIR_LIMIT as int, UNIT_LIMIT as int);
            lemma_fmul_bound(r.direction.y as int, outward_normal.y as int, DIR_LIMIT as int, UNIT_LIMIT as int);
            lemma_fmul_bound(r.direction.z as int, outward_normal.z as int, DIR_LIMIT as int, UNIT_LIMIT as int);
        }
        let dx: i128 = fmul_wide(r.direction.x as i128, outward_normal.x as i128);
        let dy: i128 = fmul_wide(r.direction.y as i128, outward_normal.y as i128);
        let dz: i128 = fmul_wide(r.direction.z as i128, outward_normal.z as i128);
        let d: i128 = dx + dy + dz;
        self.front_face = d < 0;
        self.normal = if self.front_face {
            *outward_normal
        } else {
            outward_normal.neg()
        };
    }
}

} // verus!
