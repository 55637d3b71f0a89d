//! The sphere primitive and its ray intersection test.
//!
//! The intersection solves the fixed-point quadratic
//! `|origin + t*direction - center|^2 = radius^2` exactly as the executable
//! code computes it: the spec functions below (`quad_a` through
//! `sphere_hit`) are the step-for-step mathematical mirror, so the `hit`
//! contract pins the whole outcome. A negative radius is legal and flips
//! the outward normal (a hollow shell seen from inside).

use vstd::prelude::*;
use crate::fixed::{
    COORD_LIMIT, DIR_LIMIT, fmul, fdiv, fsqrt, lemma_sqrt_floor_unique, lemma_fmul_bound,
    fmul_wide, tdiv128, isqrt_u128,
};
use crate::vec3::{
    Vec3, Point3, vsub, vneg, vdot, in_coord_range, lemma_vneg_self_dot, UNIT_LIMIT,
};
use crate::ray::{Ray, ray_at, ray_wf};
use crate::hittable::{HitRecord, hit_record_wf, Hittable};
use crate::material::Material;

verus! {

#[derive(Clone, Copy, PartialEq, Eq, Structural, Debug)]
pub struct Sphere {
    pub center: Point3,
    pub radius: i64,
    pub material: Material,
}

/// A sphere the tracer can work with: center inside the world, radius
/// nonzero and bounded, material parameters sound.
pub open spec fn sphere_wf(s: Sphere) -> bool {
    &&& in_coord_range(s.center)
    &&& s.radius != 0
    &&& -COORD_LIMIT <= s.radius <= COORD_LIMIT
    &&& s.material.wf()
}

/// Ray origin relative to the sphere center.
pub open spec fn oc_of(s: Sphere, r: Ray) -> Vec3 {
    vsub(r.origin, s.center)
}

/// Leading coefficient of the intersection quadratic.
pub open spec fn quad_a(r: Ray) -> int {
    vdot(r.direction, r.direction)
}

/// Half the linear coefficient of the intersection quadratic.
pub open spec fn quad_half_b(s: Sphere, r: Ray) -> int {
    vdot(r.direction, oc_of(s, r))
}

/// Constant coefficient of the intersection quadratic.
pub open spec fn quad_c(s: Sphere, r: Ray) -> int {
    vdot(oc_of(s, r), oc_of(s, r)) - fmul(s.radius as int, s.radius as int)
}

/// The (quarter) discriminant: negative means the ray misses entirely.
pub open spec fn discriminant_of(s: Sphere, r: Ray) -> int {
    fmul(quad_half_b(s, r), quad_half_b(s, r)) - fmul(quad_a(r), quad_c(s, r))
}

pub open spec fn disc_sqrt_of(s: Sphere, r: Ray) -> int {
    fsqrt(discriminant_of(s, r))
}

/// The smaller quadratic root.
pub open spec fn root_low_of(s: Sphere, r: Ray) -> int {
    fdiv(-quad_half_b(s, r) - disc_sqrt_of(s, r), quad_a(r))
}

/// The larger quadratic root.
pub open spec fn root_high_of(s: Sphere, r: Ray) -> int {
    fdiv(-quad_half_b(s, r) + disc_sqrt_of(s, r), quad_a(r))
}

/// The root the intersection accepts: the smaller one when it falls
/// strictly inside `(lo, hi)`, else the larger one, else none. A root
/// exactly at either end of the window is rejected.
pub open spec fn chosen_root(s: Sphere, r: Ray, lo: int, hi: int) -> Option<int> {
    if discriminant_of(s, r) < 0 {
        None
    } else if lo < root_low_of(s, r) && root_low_of(s, r) < hi {
        Some(root_low_of(s, r))
    } else if lo < root_high_of(s, r) && root_high_of(s, r) < hi {
        Some(root_high_of(s, r))
    } else {
        None
    }
}

/// Components of the outward normal `(p - center) / radius`, as exact
/// integers before any narrowing.
pub open spec fn outward_x(s: Sphere, r: Ray, t: int) -> int {
    fdiv(ray_at(r, t).x - s.center.x, s.radius as int)
}

pub open spec fn outward_y(s: Sphere, r: Ray, t: int) -> int {
    fdiv(ray_at(r, t).y - s.center.y, s.radius as int)
}

pub open spec fn outward_z(s: Sphere, r: Ray, t: int) -> int {
    fdiv(ray_at(r, t).z - s.center.z, s.radius as int)
}

/// The accepted root also has to yield a usable record: a hit point
/// inside the world and an outward normal at unit scale that still
/// carries a direction. On the geometry the tracer admits these guards
/// never fire; they make the fixed-point arithmetic total.
pub open spec fn normal_ok(s: Sphere, r: Ray, t: int) -> bool {
    let ox = outward_x(s, r, t);
    let oy = outward_y(s, r, t);
    let oz = outward_z(s, r, t);
    &&& in_coord_range(ray_at(r, t))
    &&& -UNIT_LIMIT <= ox <= UNIT_LIMIT
    &&& -UNIT_LIMIT <= oy <= UNIT_LIMIT
    &&& -UNIT_LIMIT <= oz <= UNIT_LIMIT
    &&& fmul(ox, ox) + fmul(oy, oy) + fmul(oz, oz) >= 1
}

pub open spec fn outward_normal_of(s: Sphere, r: Ray, t: int) -> Vec3 {
    Vec3 {
        x: outward_x(s, r, t) as i64,
        y: outward_y(s, r, t) as i64,
        z: outward_z(s, r, t) as i64,
    }
}

/// The record built for an accepted root, with the normal oriented
/// against the ray.
pub open spec fn record_of(s: Sphere, r: Ray, t: int) -> HitRecord {
    let onrm = outward_normal_of(s, r, t);
    let ff = vdot(r.direction, onrm) < 0;
    HitRecord {
        p: ray_at(r, t),
        normal: if ff {
            onrm
        } else {
            vneg(onrm)
        },
        t: t as i64,
        front_face: ff,
        material: s.material,
    }
}

/// The full outcome of `Sphere::hit`.
pub open spec fn sphere_hit(s: Sphere, r: Ray, lo: int, hi: int) -> Option<HitRecord> {
    match chosen_root(s, r, lo, hi) {
        Some(t) => if normal_ok(s, r, t) {
            Some(record_of(s, r, t))
        } else {
            None
        },
        None => None,
    }
}

impl Sphere {
    /// Nearest valid intersection of the ray with this sphere inside the
    /// open parameter window `(t_min, t_max)`.
    pub fn hit(&self, r: &Ray, t_min: i64, t_max: i64) -> (res: Option<HitRecord>)
        requires
            sphere_wf(*self),
            ray_wf(*r),
            0 <= t_min,
            t_min <= t_max,
            t_max <= COORD_LIMIT,
        ensures
            res == sphere_hit(*self, *r, t_min as int, t_max as int),
            (res matches Some(h) ==> hit_record_wf(h) && t_min < h.t < t_max
                && h.material == self.material && Some(h.t as int) == chosen_root(
                *self,
                *r,
                t_min as int,
                t_max as int,
            )),
    {
        let oc = r.origin.sub(self.center);
        proof {
            assert((r.direction.x as int) * (r.direction.x as int)
                <= 0x100_0000_0000_0000_0000_0000
                && (r.direction.y as int) * (r.direction.y as int)
                <= 0x100_0000_0000_0000_0000_0000
                && (r.direction.z as int) * (r.direction.z as int)
                <= 0x100_0000_0000_0000_0000_0000) by (nonlinear_arith)
                requires
                    -DIR_LIMIT <= r.direction.x <= DIR_LIMIT,
                    -DIR_LIMIT <= r.direction.y <= DIR_LIMIT,
                    -DIR_LIMIT <= r.direction.z <= DIR_LIMIT,
                    DIR_LIMIT == 0x1000_0000_0000i64,
            ;
            lemma_fmul_bound(r.direction.x as int, r.direction.x as int, DIR_LIMIT as int, DIR_LIMIT as int);
            lemma_fmul_bound(r.direction.y as int, r.direction.y as int, DIR_LIMIT as int, DIR_LIMIT as int);
            lemma_fmul_bound(r.direction.z as int, r.direction.z as int, DIR_LIMIT as int, DIR_LIMIT as int);
            lemma_fmul_bound(r.direction.x as int, oc.x as int, DIR_LIMIT as int, 0x2_0000_0000);
            lemma_fmul_bound(r.direction.y as int, oc.y as int, DIR_LIMIT as int, 0x2_0000_0000);
            lemma_fmul_bound(r.direction.z as int, oc.z as int, DIR_LIMIT as int, 0x2_0000_0000);
            lemma_fmul_bound(oc.x as int, oc.x as int, 0x2_0000_0000, 0x2_0000_0000);
            lemma_fmul_bound(oc.y as int, oc.y as int, 0x2_0000_0000, 0x2_0000_0000);
            lemma_fmul_bound(oc.z as int, oc.z as int, 0x2_0000_0000, 0x2_0000_0000);
            lemma_fmul_bound(self.radius as int, self.radius as int, COORD_LIMIT as int, COORD_LIMIT as int);
        }
        let dx: i128 = r.direction.x as i128;
        let dy: i128 = r.direction.y as i128;
        let dz: i128 = r.direction.z as i128;
        let a_w: i128 = fmul_wide(dx, dx) + fmul_wide(dy, dy) + fmul_wide(dz, dz);
        let half_b_w: i128 = fmul_wide(dx, oc.x as i128) + fmul_wide(dy, oc.y as i128)
            + fmul_wide(dz, oc.z as i128);
        let ls_oc: i128 = fmul_wide(oc.x as i128, oc.x as i128) + fmul_wide(
            oc.y as i128,
            oc.y as i128,
        ) + fmul_wide(oc.z as i128, oc.z as i128);
        let c_w: i128 = ls_oc - fmul_wide(self.radius as i128, self.radius as i128);
        proof {
            assert(a_w as int == quad_a(*r));
            assert(half_b_w as int == quad_half_b(*self, *r));
            assert(c_w as int == quad_c(*self, *r));
            assert(a_w >= 1);
            assert((half_b_w as int) * (half_b_w as int)
                <= 0x4000_0000_0000_0000_0000_0000_0000_0000
                && -0x4000_0000_0000_0000_0000_0000_0000_0000 <= (half_b_w as int) * (
            half_b_w as int)) by (nonlinear_arith)
                requires
                    -0x6000_0000_0000_0000 <= half_b_w <= 0x6000_0000_0000_0000,
            ;
            assert((a_w as int) * (c_w as int) <= 0x4000_0000_0000_0000_0000_0000_0000_0000
                && -0x4000_0000_0000_0000_0000_0000_0000_0000 <= (a_w as int) * (c_w as int))
                by (nonlinear_arith)
                requires
                    0 <= a_w <= 0x300_0000_0000_0000_0000,
                    -0x10_0000_0000_0000 <= c_w <= 0x10_0000_0000_0000,
            ;
        }
        let disc_w: i128 = fmul_wide(half_b_w, half_b_w) - fmul_wide(a_w, c_w);
        proof {
            assert(disc_w as int == discriminant_of(*self, *r));
        }
        if disc_w < 0 {
            return None;
        }
        let w: u128 = (disc_w as u128) * 65536;
        let sq_u: u128 = isqrt_u128(w);
        proof {
            lemma_sqrt_floor_unique(sq_u as int, w as int);
            assert(sq_u as int == disc_sqrt_of(*self, *r));
            assert(sq_u < 0x1_0000_0000_0000_0000u128) by (nonlinear_arith)
                requires
                    (sq_u as int) * (sq_u as int) <= w as int,
                    (w as int) <= 0x1_0000_0000_0000_0000_0000_0000_0000_0000,
            ;
        }
        let sq: i128 = sq_u as i128;
        let num_low: i128 = -half_b_w - sq;
        let root_low: i128 = tdiv128(num_low * 65536, a_w);
        proof {
            assert(root_low as int == root_low_of(*self, *r));
        }
        let lo: i128 = t_min as i128;
        let hi: i128 = t_max as i128;
        let root: i64;
        if lo < root_low && root_low < hi {
            root = root_low as i64;
        } else {
            let num_high: i128 = -half_b_w + sq;
            let root_high: i128 = tdiv128(num_high * 65536, a_w);
            proof {
                assert(root_high as int == root_high_of(*self, *r));
            }
            if lo < root_high && root_high < hi {
                root = root_high as i64;
            } else {
                return None;
            }
        }
        proof {
            assert(Some(root as int) == chosen_root(*self, *r, t_min as int, t_max as int));
            lemma_fmul_bound(r.direction.x as int, root as int, DIR_LIMIT as int, COORD_LIMIT as int);
            lemma_fmul_bound(r.direction.y as int, root as int, DIR_LIMIT as int, COORD_LIMIT as int);
            lemma_fmul_bound(r.direction.z as int, root as int, DIR_LIMIT as int, COORD_LIMIT as int);
        }
        let p = r.at(root);
        if !(-COORD_LIMIT <= p.x && p.x <= COORD_LIMIT && -COORD_LIMIT <= p.y && p.y
            <= COORD_LIMIT && -COORD_LIMIT <= p.z && p.z <= COORD_LIMIT) {
            return None;
        }
        let onx: i128 = tdiv128((p.x as i128 - self.center.x as i128) * 65536, self.radius as i128);
        let ony: i128 = tdiv128((p.y as i128 - self.center.y as i128) * 65536, self.radius as i128);
        let onz: i128 = tdiv128((p.z as i128 - self.center.z as i128) * 65536, self.radius as i128);
        proof {
            assert(onx as int == outward_x(*self, *r, root as int));
            assert(ony as int == outward_y(*self, *r, root as int));
            assert(onz as int == outward_z(*self, *r, root as int));
        }
        let ul: i128 = UNIT_LIMIT as i128;
        if !(-ul <= onx && onx <= ul && -ul <= ony && ony <= ul && -ul <= onz && onz <= ul) {
            return None;
        }
        let outward_normal = Vec3 { x: onx as i64, y: ony as i64, z: onz as i64 };
        let nd = outward_normal.length_squared();
        if nd < 1 {
            return None;
        }
        let mut rec = HitRecord::new(&p, root, self.material);
        rec.set_face_normal(r, &outward_normal);
        proof {
            assert(rec == record_of(*self, *r, root as int));
            if !rec.front_face {
                lemma_vneg_self_dot(outward_normal);
            }
        }
        Some(rec)
    }
}

impl Hittable for Sphere {
    open spec fn shape_wf(&self) -> bool {
        sphere_wf(*self)
    }

    open spec fn hit_spec(&self, r: Ray, lo: int, hi: int) -> Option<HitRecord> {
        sphere_hit(*self, r, lo, hi)
    }

    fn hit(&self, r: &Ray, t_min: i64, t_max: i64) -> (res: Option<HitRecord>) {
        Sphere::hit(self, r, t_min, t_max)
    }
}

} // verus!
