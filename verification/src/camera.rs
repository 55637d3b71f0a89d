//! The depth-of-field camera: maps normalized image-plane coordinates,
//! plus a random lens offset, to a world-space ray.
//!
//! The constructor takes the tangent of half the vertical field of view
//! directly (trigonometry is the caller's, outside the fixed-point grid)
//! and derives the orthonormal-ish viewing basis and the viewport frame.

use vstd::prelude::*;
use crate::fixed::{FX_ONE, fmul, lemma_fmul_bound, lemma_tdiv_bound, fx_mul};
use crate::vec3::{
    Vec3, Point3, vadd, vsub, vscale, vdiv, vcross, vunit, vdot, within, in_coord_range,
    in_dir_range, in_unit_range, nondegenerate,
};
use crate::ray::Ray;

verus! {

pub struct Camera {
    pub origin: Point3,
    pub lower_left_corner: Point3,
    pub horizontal: Vec3,
    pub vertical: Vec3,
    pub u: Vec3,
    pub v: Vec3,
    pub w: Vec3,
    pub lens_radius: i64,
}

/// Bounds under which `get_ray`'s arithmetic stays exact: eye point well
/// inside the world, frame vectors bounded, basis at unit scale, a
/// moderate lens.
pub open spec fn camera_wf(c: Camera) -> bool {
    &&& within(c.origin, 0x1000_0000)
    &&& within(c.lower_left_corner, 0x100_0000_0000)
    &&& within(c.horizontal, 0x100_0000_0000)
    &&& within(c.vertical, 0x100_0000_0000)
    &&& within(c.u, 0x10_0000)
    &&& within(c.v, 0x10_0000)
    &&& within(c.w, 0x10_0000)
    &&& 0 <= c.lens_radius <= 0x10_0000
}

/// The ray produced for image-plane coordinates `(s, t)` and a given lens
/// sample.
pub open spec fn cam_ray_for(c: Camera, s: int, t: int, dp: Vec3) -> Ray {
    let rd = vscale(dp, c.lens_radius as int);
    let offset = vadd(vscale(c.u, rd.x as int), vscale(c.v, rd.y as int));
    Ray {
        origin: vadd(c.origin, offset),
        direction: vsub(
            vsub(
                vadd(vadd(c.lower_left_corner, vscale(c.horizontal, s)), vscale(c.vertical, t)),
                c.origin,
            ),
            offset,
        ),
    }
}

impl Camera {
    /// Build the camera from eye point, target point, view-up vector, the
    /// tangent of half the vertical field of view, aspect ratio, aperture
    /// (lens diameter) and focus distance.
    pub fn new(
        look_from: Point3,
        look_at: Point3,
        vup: Vec3,
        tan_half_vfov: i64,
        aspect_ratio: i64,
        aperture: i64,
        focus_dist: i64,
    ) -> (cam: Camera)
        requires
            within(look_from, 0x1000_0000),
            within(look_at, 0x1000_0000),
            in_unit_range(vup),
            nondegenerate(vsub(look_from, look_at)),
            nondegenerate(vcross(vup, vunit(vsub(look_from, look_at)))),
            0 < tan_half_vfov <= 0x10_0000,
            0 < aspect_ratio <= 0x10_0000,
            0 <= aperture <= 0x10_0000,
            4096 <= focus_dist <= 0x1000_0000,
        ensures
            camera_wf(cam),
            cam.origin == look_from,
            cam.w == vunit(vsub(look_from, look_at)),
            cam.u == vunit(vcross(vup, cam.w)),
            cam.v == vcross(cam.w, cam.u),
            cam.horizontal == vscale(
                cam.u,
                fmul(focus_dist as int, fmul(aspect_ratio as int, 2 * tan_half_vfov)),
            ),
            cam.vertical == vscale(cam.v, fmul(focus_dist as int, 2 * tan_half_vfov)),
            cam.lower_left_corner == vsub(
                vsub(
                    vsub(look_from, vdiv(cam.horizontal, 2 * FX_ONE)),
                    vdiv(cam.vertical, 2 * FX_ONE),
                ),
                vscale(cam.w, focus_dist as int),
            ),
            cam.lens_radius as int == (aperture as int) / 2,
    {
        let w = look_from.sub(look_at).unit_vector();
        proof {
            lemma_fmul_bound(vup.y as int, w.z as int, 0x4_0000, 0x2_0000);
            lemma_fmul_bound(vup.z as int, w.y as int, 0x4_0000, 0x2_0000);
            lemma_fmul_bound(vup.z as int, w.x as int, 0x4_0000, 0x2_0000);
            lemma_fmul_bound(vup.x as int, w.z as int, 0x4_0000, 0x2_0000);
            lemma_fmul_bound(vup.x as int, w.y as int, 0x4_0000, 0x2_0000);
            lemma_fmul_bound(vup.y as int, w.x as int, 0x4_0000, 0x2_0000);
        }
        let cu = vup.cross(w);
        let u = cu.unit_vector();
        proof {
            lemma_fmul_bound(w.y as int, u.z as int, 0x2_0000, 0x2_0000);
            lemma_fmul_bound(w.z as int, u.y as int, 0x2_0000, 0x2_0000);
            lemma_fmul_bound(w.z as int, u.x as int, 0x2_0000, 0x2_0000);
            lemma_fmul_bound(w.x as int, u.z as int, 0x2_0000, 0x2_0000);
            lemma_fmul_bound(w.x as int, u.y as int, 0x2_0000, 0x2_0000);
            lemma_fmul_bound(w.y as int, u.x as int, 0x2_0000, 0x2_0000);
        }
        let v = w.cross(u);
        let viewport_height: i64 = 2 * tan_half_vfov;
        proof {
            lemma_fmul_bound(aspect_ratio as int, viewport_height as int, 0x10_0000, 0x20_0000);
        }
        let viewport_width: i64 = fx_mul(aspect_ratio, viewport_height);
        proof {
            lemma_fmul_bound(focus_dist as int, viewport_width as int, 0x1000_0000, 0x200_0000);
        }
        let t1: i64 = fx_mul(focus_dist, viewport_width);
        proof {
            lemma_fmul_bound(u.x as int, t1 as int, 0x2_0000, 0x20_0000_0000);
            lemma_fmul_bound(u.y as int, t1 as int, 0x2_0000, 0x20_0000_0000);
            lemma_fmul_bound(u.z as int, t1 as int, 0x2_0000, 0x20_0000_0000);
        }
        let horizontal = u.scale(t1);
        proof {
            lemma_fmul_bound(focus_dist as int, viewport_height as int, 0x1000_0000, 0x20_0000);
        }
        let t2: i64 = fx_mul(focus_dist, viewport_height);
        proof {
            lemma_fmul_bound(v.x as int, t2 as int, 0x8_0000, 0x2_0000_0000);
            lemma_fmul_bound(v.y as int, t2 as int, 0x8_0000, 0x2_0000_0000);
            lemma_fmul_bound(v.z as int, t2 as int, 0x8_0000, 0x2_0000_0000);
        }
        let vertical = v.scale(t2);
        proof {
            lemma_tdiv_bound(horizontal.x as int * 65536, 2 * FX_ONE as int, 0x100_0000_0000);
            lemma_tdiv_bound(horizontal.y as int * 65536, 2 * FX_ONE as int, 0x100_0000_0000);
            lemma_tdiv_bound(horizontal.z as int * 65536, 2 * FX_ONE as int, 0x100_0000_0000);
            lemma_tdiv_bound(vertical.x as int * 65536, 2 * FX_ONE as int, 0x100_0000_0000);
            lemma_tdiv_bound(vertical.y as int * 65536, 2 * FX_ONE as int, 0x100_0000_0000);
            lemma_tdiv_bound(vertical.z as int * 65536, 2 * FX_ONE as int, 0x100_0000_0000);
        }
        let half_h = horizontal.div(2 * FX_ONE);
        let half_v = vertical.div(2 * FX_ONE);
        proof {
            lemma_fmul_bound(w.x as int, focus_dist as int, 0x2_0000, 0x1000_0000);
            lemma_fmul_bound(w.y as int, focus_dist as int, 0x2_0000, 0x1000_0000);
            lemma_fmul_bound(w.z as int, focus_dist as int, 0x2_0000, 0x1000_0000);
        }
        let fdw = w.scale(focus_dist);
        let lower_left_corner = look_from.sub(half_h).sub(half_v).sub(fdw);
        let lens_radius: i64 = ((aperture as u64) / 2) as i64;
        Camera {
            origin: look_from,
            lower_left_corner,
            horizontal,
            vertical,
            u,
            v,
            w,
            lens_radius,
        }
    }

    /// The ray through image-plane coordinates `(s, t)`, its origin
    /// perturbed on the lens disk for depth of field. With a zero lens
    /// radius the origin is exactly the configured eye point, whatever the
    /// random draw produced.
    pub fn get_ray(&self, s: i64, t: i64) -> (ray: Ray)
        requires
            camera_wf(*self),
            0 <= s <= FX_ONE,
            0 <= t <= FX_ONE,
        ensures
            in_coord_range(ray.origin),
            in_dir_range(ray.direction),
            self.lens_radius == 0 ==> ray.origin == self.origin,
            exists|dp: Vec3|
                (vdot(dp, dp) < FX_ONE && dp.z == 0 && -FX_ONE <= dp.x <= FX_ONE && -FX_ONE
                    <= dp.y <= FX_ONE) && ray == cam_ray_for(*self, s as int, t as int, dp),
    {
        let dp = Vec3::random_in_unit_disk();
        proof {
            lemma_fmul_bound(dp.x as int, self.lens_radius as int, FX_ONE as int, 0x10_0000);
            lemma_fmul_bound(dp.y as int, self.lens_radius as int, FX_ONE as int, 0x10_0000);
            lemma_fmul_bound(dp.z as int, self.lens_radius as int, FX_ONE as int, 0x10_0000);
        }
        let rd = dp.scale(self.lens_radius);
        proof {
            lemma_fmul_bound(self.u.x as int, rd.x as int, 0x10_0000, 0x10_0000);
            lemma_fmul_bound(self.u.y as int, rd.x as int, 0x10_0000, 0x10_0000);
            lemma_fmul_bound(self.u.z as int, rd.x as int, 0x10_0000, 0x10_0000);
            lemma_fmul_bound(self.v.x as int, rd.y as int, 0x10_0000, 0x10_0000);
            lemma_fmul_bound(self.v.y as int, rd.y as int, 0x10_0000, 0x10_0000);
            lemma_fmul_bound(self.v.z as int, rd.y as int, 0x10_0000, 0x10_0000);
        }
        let offset = self.u.scale(rd.x).add(self.v.scale(rd.y));
        let origin = self.origin.add(offset);
        proof {
            lemma_fmul_bound(self.horizontal.x as int, s as int, 0x100_0000_0000, 0x1_0000);
            lemma_fmul_bound(self.horizontal.y as int, s as int, 0x100_0000_0000, 0x1_0000);
            lemma_fmul_bound(self.horizontal.z as int, s as int, 0x100_0000_0000, 0x1_0000);
            lemma_fmul_bound(self.vertical.x as int, t as int, 0x100_0000_0000, 0x1_0000);
            lemma_fmul_bound(self.vertical.y as int, t as int, 0x100_0000_0000, 0x1_0000);
            lemma_fmul_bound(self.vertical.z as int, t as int, 0x100_0000_0000, 0x1_0000);
        }
        let sh = self.horizontal.scale(s);
        let tv = self.vertical.scale(t);
        let direction = self.lower_left_corner.add(sh).add(tv).sub(self.origin).sub(offset);
        let ray = Ray { origin, direction };
        proof {
            if self.lens_radius == 0 {
                assert((dp.x as int) * 0 == 0);
                assert((dp.y as int) * 0 == 0);
                assert((dp.z as int) * 0 == 0);
                assert(rd == (Vec3 { x: 0, y: 0, z: 0 }));
                assert((self.u.x as int) * 0 == 0);
                assert((self.u.y as int) * 0 == 0);
                assert((self.u.z as int) * 0 == 0);
                assert((self.v.x as int) * 0 == 0);
                assert((self.v.y as int) * 0 == 0);
                assert((self.v.z as int) * 0 == 0);
                assert(offset == (Vec3 { x: 0, y: 0, z: 0 }));
                assert(ray.origin == self.origin);
            }
            assert(ray == cam_ray_for(*self, s as int, t as int, dp));
        }
        ray
    }
}

} // verus!
