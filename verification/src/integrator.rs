//! The path-tracing integrator: the recursive heart of the renderer.
//!
//! `ray_color` resolves the radiance along one ray by chaining scene
//! intersection and material scattering. The recursion is bounded by the
//! depth budget; radiance is proved to stay within `[0, 1]` on every
//! channel, whatever the random scattering draws produce.

use vstd::prelude::*;
use crate::fixed::{FX_ONE, COORD_LIMIT, tdiv, fclamp, lemma_fmul_unit_interval, lemma_tdiv_mul_cancel, fx_clamp, tdiv128};
use crate::vec3::{Vec3, Color, color_wf, vadd, vmul, vscale, vunit};
use crate::ray::{Ray, ray_wf};
use crate::hittable::Hittable;

verus! {

/// Lower bound of the intersection window: about 0.001 on the grid,
/// skipping spurious self-intersections at a scattered ray's origin
/// (shadow acne).
pub const T_MIN: i64 = 66;

/// Upper bound of the intersection window: the world horizon.
pub const T_MAX: i64 = COORD_LIMIT;

/// The sky: blend white into sky blue by the unit direction's height,
/// kept on `[0, 1]` against grid error.
pub open spec fn background_of(r: Ray) -> Color {
    let uy = vunit(r.direction).y as int;
    let t = fclamp(tdiv(uy + FX_ONE, 2), 0, FX_ONE as int);
    vadd(
        vscale(Vec3 { x: FX_ONE, y: FX_ONE, z: FX_ONE }, FX_ONE - t),
        vscale(Vec3 { x: 32768, y: 45875, z: 65536 }, t),
    )
}

/// Radiance gathered along a ray, by recursive path tracing.
///
/// With an exhausted depth budget the result is black; when the ray
/// misses every primitive it is the background gradient; on a hit it is
/// the scatter attenuation filtering the radiance of the scattered ray,
/// or black on absorption. Every channel stays in `[0, 1]`.
pub fn ray_color<H: Hittable>(r: &Ray, world: &H, depth: i32) -> (c: Color)
    requires
        ray_wf(*r),
        world.shape_wf(),
    ensures
        color_wf(c),
        depth <= 0 ==> c == (Vec3 { x: 0, y: 0, z: 0 }),
        depth > 0 && world.hit_spec(*r, T_MIN as int, T_MAX as int) is None ==> c
            == background_of(*r),
        (depth > 0 ==> (world.hit_spec(*r, T_MIN as int, T_MAX as int) matches Some(h) ==> c
            == (Vec3 { x: 0, y: 0, z: 0 }) || (exists|sub: Color|
            color_wf(sub) && c == #[trigger] vmul(h.material.attenuation_of(), sub)))),
    decreases depth,
{
    if depth <= 0 {
        return Color::black();
    }
    match world.hit(r, T_MIN, T_MAX) {
        Some(rec) => {
            match rec.material.scatter(r, &rec) {
                Some((attenuation, scattered)) => {
                    let rc = ray_color(&scattered, world, depth - 1);
                    proof {
                        lemma_fmul_unit_interval(attenuation.x as int, rc.x as int);
                        lemma_fmul_unit_interval(attenuation.y as int, rc.y as int);
                        lemma_fmul_unit_interval(attenuation.z as int, rc.z as int);
                    }
                    let out = attenuation.mul(rc);
                    proof {
                        assert(color_wf(rc) && out == vmul(rec.material.attenuation_of(), rc));
                    }
                    out
                },
                None => Color::black(),
            }
        },
        None => {
            let ud = r.direction.unit_vector();
            let half: i64 = tdiv128(ud.y as i128 + 65536, 2) as i64;
            let t = fx_clamp(half, 0, FX_ONE);
            proof {
                lemma_tdiv_mul_cancel(FX_ONE as int - t, 65536);
                lemma_fmul_unit_interval(32768, t as int);
                lemma_fmul_unit_interval(45875, t as int);
                lemma_fmul_unit_interval(65536, t as int);
            }
            let white = Color::white();
            let skyblue = Vec3::new(32768, 45875, 65536);
            let part1 = white.scale(FX_ONE - t);
            let part2 = skyblue.scale(t);
            part1.add(part2)
        },
    }
}

} // verus!
