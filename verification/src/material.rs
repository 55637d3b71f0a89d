//! The material model: diffuse (Lambertian), fuzzy metal and clear
//! dielectric scattering.
//!
//! `scatter` takes the incoming ray and the hit record and produces an
//! attenuation color together with the outgoing scattered ray, or nothing
//! when the ray is absorbed. The random parts (hemisphere and lens
//! sampling, the Fresnel coin flip) come from the uniform integer source;
//! everything that is deterministic is pinned exactly by the contracts.

use vstd::prelude::*;
use vstd::arithmetic::div_mod::lemma_div_by_self;
use crate::fixed::{
    FX_ONE, fmul, fdiv, fsqrt, fclamp, is_sqrt_floor, lemma_fmul_bound, lemma_fmul_nonneg,
    lemma_fmul_square_le_one, lemma_sqrt_floor_exists, lemma_tdiv_bound, lemma_tdiv_ordered,
    fx_mul, fx_div, fx_sqrt, fx_clamp,
};
use crate::vec3::{
    Vec3, Color, color_wf, nondegenerate, in_unit_range, vadd, vneg, vdot, vreflect, vrefract,
    vscale, vunit,
};
use crate::ray::{Ray, ray_wf};
use crate::hittable::{HitRecord, hit_record_wf};
use crate::rng::rand_in;

verus! {

/// An ideal matte surface.
#[derive(Clone, Copy, PartialEq, Eq, Structural, Debug)]
pub struct Lambertian {
    pub albedo: Color,
}

/// A reflective surface with a roughness radius.
#[derive(Clone, Copy, PartialEq, Eq, Structural, Debug)]
pub struct Metal {
    pub albedo: Color,
    pub fuzz: i64,
}

/// A clear refractive surface (glass), described by its refraction index.
#[derive(Clone, Copy, PartialEq, Eq, Structural, Debug)]
pub struct Dielectric {
    pub ir: i64,
}

/// The closed set of materials a primitive can carry.
#[derive(Clone, Copy, PartialEq, Eq, Structural, Debug)]
pub enum Material {
    Lambertian(Lambertian),
    Metal(Metal),
    Dielectric(Dielectric),
}

/// The roughness radius actually used: `fuzz` clamped to `[0, 1]`.
pub open spec fn metal_fuzz(m: Metal) -> int {
    fclamp(m.fuzz as int, 0, FX_ONE as int)
}

/// The ratio of refraction indices across the surface being crossed.
pub open spec fn refraction_ratio_of(d: Dielectric, front_face: bool) -> int {
    if front_face {
        fdiv(FX_ONE as int, d.ir as int)
    } else {
        d.ir as int
    }
}

/// Cosine of the angle between the reversed unit incoming direction and
/// the normal, kept on `[-1, 1]` against grid error.
pub open spec fn cos_theta_of(r: Ray, n: Vec3) -> int {
    fclamp(vdot(vneg(vunit(r.direction)), n), -(FX_ONE as int), FX_ONE as int)
}

pub open spec fn sin_theta_of(r: Ray, n: Vec3) -> int {
    fsqrt(FX_ONE - fmul(cos_theta_of(r, n), cos_theta_of(r, n)))
}

/// Snell's law has no solution: the ray must reflect (total internal
/// reflection).
pub open spec fn cannot_refract_of(d: Dielectric, r: Ray, front_face: bool, n: Vec3) -> bool {
    fmul(refraction_ratio_of(d, front_face), sin_theta_of(r, n)) > FX_ONE
}

/// The mirror direction a dielectric uses when it reflects, with the
/// resolution fallback to the surface normal.
pub open spec fn mirror_dir_of(r: Ray, n: Vec3) -> Vec3 {
    if nondegenerate(vreflect(vunit(r.direction), n)) {
        vreflect(vunit(r.direction), n)
    } else {
        n
    }
}

/// The transmitted direction a dielectric uses when it refracts, with the
/// same resolution fallback.
pub open spec fn trans_dir_of(d: Dielectric, r: Ray, front_face: bool, n: Vec3) -> Vec3 {
    let t = vrefract(vunit(r.direction), n, refraction_ratio_of(d, front_face));
    if nondegenerate(t) {
        t
    } else {
        n
    }
}

/// The fifth power on the fixed grid, by repeated truncating products.
pub open spec fn pow5(b: int) -> int {
    fmul(fmul(fmul(fmul(b, b), b), b), b)
}

/// Schlick's polynomial approximation of the Fresnel reflectance.
pub open spec fn schlick(cosine: int, ref_idx: int) -> int {
    let r0 = fdiv(FX_ONE - ref_idx, FX_ONE + ref_idx);
    let r0sq = fmul(r0, r0);
    r0sq + fmul(FX_ONE - r0sq, pow5(FX_ONE - cosine))
}

impl Material {
    /// Structural soundness of a material's parameters: colors are real
    /// colors and the refraction index is positive and moderate.
    pub open spec fn wf(self) -> bool {
        match self {
            Material::Lambertian(l) => color_wf(l.albedo),
            Material::Metal(m) => color_wf(m.albedo),
            Material::Dielectric(d) => 4096 <= d.ir <= 0x10_0000,
        }
    }

    /// The attenuation this material applies when it scatters.
    pub open spec fn attenuation_of(self) -> Color {
        match self {
            Material::Lambertian(l) => l.albedo,
            Material::Metal(m) => m.albedo,
            Material::Dielectric(_) => Vec3 { x: FX_ONE, y: FX_ONE, z: FX_ONE },
        }
    }

    /// Scatter the incoming ray at the given hit, by the rules of whichever
    /// material this is.
    pub fn scatter(&self, r_in: &Ray, rec: &HitRecord) -> (res: Option<(Color, Ray)>)
        requires
            self.wf(),
            hit_record_wf(*rec),
            ray_wf(*r_in),
        ensures
            (res matches Some((att, sc)) ==> att == self.attenuation_of() && color_wf(att)
                && sc.origin == rec.p && ray_wf(sc)),
            self is Lambertian ==> res is Some,
            self is Dielectric ==> res is Some,
    {
        match self {
            Material::Lambertian(l) => l.scatter(r_in, rec),
            Material::Metal(m) => m.scatter(r_in, rec),
            Material::Dielectric(d) => d.scatter(r_in, rec),
        }
    }
}

impl Lambertian {
    /// Diffuse scattering: the normal plus a random unit vector, with the
    /// bare normal as fallback when that sum degenerates. Always scatters;
    /// the attenuation is exactly the albedo.
    pub fn scatter(&self, _r_in: &Ray, rec: &HitRecord) -> (res: Option<(Color, Ray)>)
        requires
            hit_record_wf(*rec),
        ensures
            res is Some,
            (res matches Some((att, sc)) ==> att == self.albedo && sc.origin == rec.p
                && ray_wf(sc) && (exists|u: Vec3|
                in_unit_range(u) && sc.direction == (if nondegenerate(
                    #[trigger] vadd(rec.normal, u),
                ) {
                    vadd(rec.normal, u)
                } else {
                    rec.normal
                }))),
    {
        let u = Vec3::random_unit_vector();
        let mut scatter_direction = rec.normal.add(u);
        if scatter_direction.near_zero() {
            scatter_direction = rec.normal;
        }
        let scattered = Ray { origin: rec.p, direction: scatter_direction };
        let attenuation = self.albedo;
        proof {
            assert(in_unit_range(u) && scattered.direction == (if nondegenerate(
                vadd(rec.normal, u),
            ) {
                vadd(rec.normal, u)
            } else {
                rec.normal
            }));
        }
        Some((attenuation, scattered))
    }
}

impl Metal {
    /// Mirror reflection of the unit incoming direction, perturbed by a
    /// random point in the roughness ball. The ray is absorbed when the
    /// perturbed direction grazes into the surface or degenerates below
    /// the grid resolution. With zero roughness the outcome is exactly the
    /// mirror direction, deterministically.
    pub fn scatter(&self, r_in: &Ray, rec: &HitRecord) -> (res: Option<(Color, Ray)>)
        requires
            hit_record_wf(*rec),
            ray_wf(*r_in),
        ensures
            (res matches Some((att, sc)) ==> att == self.albedo && sc.origin == rec.p
                && ray_wf(sc) && vdot(sc.direction, rec.normal) > 0 && (exists|b: Vec3|
                1 <= vdot(b, b) < FX_ONE && sc.direction == vadd(
                    vreflect(vunit(r_in.direction), rec.normal),
                    #[trigger] vscale(b, metal_fuzz(*self)),
                ))),
            metal_fuzz(*self) == 0 ==> (res matches Some((att, sc)) ==> sc.direction
                == vreflect(vunit(r_in.direction), rec.normal)),
            metal_fuzz(*self) == 0 ==> (res is Some <==> {
                let m = vreflect(vunit(r_in.direction), rec.normal);
                vdot(m, rec.normal) > 0 && nondegenerate(m)
            }),
    {
        let ud = r_in.direction.unit_vector();
        let reflected = Vec3::reflect(&ud, &rec.normal);
        let f = fx_clamp(self.fuzz, 0, FX_ONE);
        let ball = Vec3::random_in_unit_sphere();
        proof {
            lemma_fmul_bound(ball.x as int, f as int, FX_ONE as int, FX_ONE as int);
            lemma_fmul_bound(ball.y as int, f as int, FX_ONE as int, FX_ONE as int);
            lemma_fmul_bound(ball.z as int, f as int, FX_ONE as int, FX_ONE as int);
        }
        let fuzzed = ball.scale(f);
        let scatter_direction = reflected.add(fuzzed);
        proof {
            if metal_fuzz(*self) == 0 {
                assert((ball.x as int) * 0 == 0);
                assert((ball.y as int) * 0 == 0);
                assert((ball.z as int) * 0 == 0);
                assert(fuzzed == (Vec3 { x: 0, y: 0, z: 0 }));
                assert(scatter_direction == reflected);
            }
        }
        let d_normal = scatter_direction.dot(rec.normal);
        let d_self = scatter_direction.length_squared();
        if d_normal > 0 && d_self >= 1 {
            let scattered = Ray { origin: rec.p, direction: scatter_direction };
            proof {
                assert(1 <= vdot(ball, ball) < FX_ONE && scattered.direction == vadd(
                    vreflect(vunit(r_in.direction), rec.normal),
                    vscale(ball, metal_fuzz(*self)),
                ));
            }
            Some((self.albedo, scattered))
        } else {
            None
        }
    }
}

impl Dielectric {
    /// Glass scattering: refract when Snell's law allows it and the
    /// Fresnel draw chooses transmission, otherwise reflect. Always
    /// scatters, with clear (full-scale) attenuation. Under total internal
    /// reflection the outgoing direction is the mirror direction,
    /// deterministically.
    pub fn scatter(&self, r_in: &Ray, rec: &HitRecord) -> (res: Option<(Color, Ray)>)
        requires
            hit_record_wf(*rec),
            ray_wf(*r_in),
            4096 <= self.ir <= 0x10_0000,
        ensures
            res is Some,
            (res matches Some((att, sc)) ==> att == (Vec3 { x: FX_ONE, y: FX_ONE, z: FX_ONE })
                && sc.origin == rec.p && ray_wf(sc)),
            (res matches Some((att, sc)) ==> sc.direction == mirror_dir_of(*r_in, rec.normal)
                || sc.direction == trans_dir_of(*self, *r_in, rec.front_face, rec.normal)),
            cannot_refract_of(*self, *r_in, rec.front_face, rec.normal) ==> (res matches Some(
                (att, sc),
            ) ==> sc.direction == mirror_dir_of(*r_in, rec.normal)),
    {
        let attenuation = Color::white();
        proof {
            lemma_div_by_self(self.ir as int);
            lemma_tdiv_ordered(self.ir as int, 65536int * 65536, self.ir as int);
            lemma_tdiv_bound(65536int * 65536, self.ir as int, 0x10_0000);
        }
        let refraction_ratio: i64 = if rec.front_face {
            fx_div(FX_ONE, self.ir)
        } else {
            self.ir
        };
        let unit_direction = r_in.direction.unit_vector();
        let neg_ud = unit_direction.neg();
        let ndot = neg_ud.dot(rec.normal);
        let cos_theta = fx_clamp(ndot, -FX_ONE, FX_ONE);
        proof {
            lemma_fmul_square_le_one(cos_theta as int);
        }
        let csq = fx_mul(cos_theta, cos_theta);
        let sin_theta = fx_sqrt(FX_ONE - csq);
        proof {
            lemma_sqrt_floor_exists((FX_ONE - csq) * FX_ONE);
            assert(sin_theta <= 65536) by (nonlinear_arith)
                requires
                    is_sqrt_floor(sin_theta as int, (FX_ONE - csq) * (FX_ONE as int)),
                    0 <= FX_ONE - csq <= 65536,
                    FX_ONE == 65536i64,
            ;
            lemma_fmul_bound(refraction_ratio as int, sin_theta as int, 0x10_0000, 0x1_0000);
        }
        let rs = fx_mul(refraction_ratio, sin_theta);
        let cannot_refract = rs > FX_ONE;
        let refl = Dielectric::reflectance(cos_theta, refraction_ratio);
        let rd = rand_in(0, FX_ONE);
        let direction: Vec3 = if cannot_refract || refl > rd {
            Vec3::reflect(&unit_direction, &rec.normal)
        } else {
            Vec3::refract(&unit_direction, &rec.normal, refraction_ratio)
        };
        let out_direction: Vec3 = if direction.near_zero() {
            rec.normal
        } else {
            direction
        };
        let scattered = Ray { origin: rec.p, direction: out_direction };
        Some((attenuation, scattered))
    }

    /// Schlick's approximation for the Fresnel reflectance.
    fn reflectance(cosine: i64, ref_idx: i64) -> (r: i64)
        requires
            -FX_ONE <= cosine <= FX_ONE,
            0 < ref_idx <= 0x10_0000,
        ensures
            r as int == schlick(cosine as int, ref_idx as int),
    {
        let denom: i64 = FX_ONE + ref_idx;
        let num: i64 = FX_ONE - ref_idx;
        proof {
            assert((num as int) * 65536 <= 65536 * (denom as int)
                && -(65536 * (denom as int)) <= (num as int) * 65536);
            lemma_tdiv_bound((num as int) * 65536, denom as int, 65536);
        }
        let r0 = fx_div(num, denom);
        proof {
            lemma_fmul_square_le_one(r0 as int);
        }
        let r0sq = fx_mul(r0, r0);
        let base: i64 = FX_ONE - cosine;
        proof {
            lemma_fmul_nonneg(base as int, base as int);
            lemma_fmul_bound(base as int, base as int, 0x2_0000, 0x2_0000);
        }
        let b2 = fx_mul(base, base);
        proof {
            lemma_fmul_nonneg(b2 as int, base as int);
            lemma_fmul_bound(b2 as int, base as int, 0x4_0000, 0x2_0000);
        }
        let b3 = fx_mul(b2, base);
        proof {
            lemma_fmul_nonneg(b3 as int, base as int);
            lemma_fmul_bound(b3 as int, base as int, 0x8_0000, 0x2_0000);
        }
        let b4 = fx_mul(b3, base);
        proof {
            lemma_fmul_nonneg(b4 as int, base as int);
            lemma_fmul_bound(b4 as int, base as int, 0x10_0000, 0x2_0000);
        }
        let b5 = fx_mul(b4, base);
        let one_minus: i64 = FX_ONE - r0sq;
        proof {
            lemma_fmul_bound(one_minus as int, b5 as int, 0x1_0000, 0x20_0000);
        }
        let tail = fx_mul(one_minus, b5);
        r0sq + tail
    }
}

/// Energy conservation of the material model: a scattering material never
/// amplifies a channel beyond its albedo, and a dielectric attenuates
/// nothing at all.
pub proof fn lemma_energy_conservation(m: Material)
    requires
        m.wf(),
    ensures
        color_wf(m.attenuation_of()),
        (m matches Material::Lambertian(l) ==> m.attenuation_of() == l.albedo),
        (m matches Material::Metal(mm) ==> m.attenuation_of() == mm.albedo),
        m is Dielectric ==> m.attenuation_of() == (Vec3 { x: FX_ONE, y: FX_ONE, z: FX_ONE }),
{
}

} // verus!
