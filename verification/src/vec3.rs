//! Three-component vectors over the fixed-point grid, used interchangeably
//! as free vectors, points and colors.
//!
//! Every executable operation is specified by an exact mirror over `int`:
//! `vadd`, `vdot`, `vcross`, `vunit` and the rest say, step for step, which
//! integer the operation returns.

use vstd::prelude::*;
use vstd::math::abs;
use crate::fixed::{
    FX_ONE, COORD_LIMIT, DIR_LIMIT, fits_i64, fmul, fdiv, fsqrt, is_sqrt_floor,
    lemma_sqrt_floor_unique, lemma_sqrt_floor_exists, lemma_fmul_bound, lemma_fmul_commutes,
    lemma_fmul_neg, lemma_tdiv_nonneg, lemma_tdiv_neg, tdiv,
    lemma_fmul_self_lower, lemma_tdiv_bound, lemma_tdiv_mul_cancel, fx_mul, fx_div,
    fx_sqrt, fmul_wide, tdiv128, isqrt_u128,
};
use crate::rng::rand_in;

verus! {

#[derive(Clone, Copy, PartialEq, Eq, Structural, Debug)]
pub struct Vec3 {
    pub x: i64,
    pub y: i64,
    pub z: i64,
}

pub type Color = Vec3;

pub type Point3 = Vec3;

/// Magnitude accepted by the component-wise products (`dot`, `cross`,
/// `length`): 2^22 whole units.
pub const VEC_LIMIT: i64 = 0x40_0000_0000;

/// Magnitude expected of near-unit vectors handed to `reflect` and
/// `refract`: 4 whole units.
pub const UNIT_LIMIT: i64 = 0x4_0000;

/// Bound on every component of a computed unit vector: 2 whole units.
pub const UNIT_COMP_BOUND: i64 = 131072;

pub open spec fn in_vec_range(v: Vec3) -> bool {
    &&& -VEC_LIMIT <= v.x <= VEC_LIMIT
    &&& -VEC_LIMIT <= v.y <= VEC_LIMIT
    &&& -VEC_LIMIT <= v.z <= VEC_LIMIT
}

pub open spec fn in_dir_range(v: Vec3) -> bool {
    &&& -DIR_LIMIT <= v.x <= DIR_LIMIT
    &&& -DIR_LIMIT <= v.y <= DIR_LIMIT
    &&& -DIR_LIMIT <= v.z <= DIR_LIMIT
}

pub open spec fn in_coord_range(v: Vec3) -> bool {
    &&& -COORD_LIMIT <= v.x <= COORD_LIMIT
    &&& -COORD_LIMIT <= v.y <= COORD_LIMIT
    &&& -COORD_LIMIT <= v.z <= COORD_LIMIT
}

pub open spec fn in_unit_range(v: Vec3) -> bool {
    &&& -UNIT_LIMIT <= v.x <= UNIT_LIMIT
    &&& -UNIT_LIMIT <= v.y <= UNIT_LIMIT
    &&& -UNIT_LIMIT <= v.z <= UNIT_LIMIT
}

/// A vector long enough to carry a direction at this resolution: its
/// fixed-point squared length does not truncate to zero.
pub open spec fn nondegenerate(v: Vec3) -> bool {
    vdot(v, v) >= 1
}

/// Every component within the given magnitude.
pub open spec fn within(v: Vec3, bound: int) -> bool {
    &&& -bound <= v.x <= bound
    &&& -bound <= v.y <= bound
    &&& -bound <= v.z <= bound
}

/// A physically meaningful color: every channel between zero and
/// full-scale.
pub open spec fn color_wf(c: Color) -> bool {
    &&& 0 <= c.x <= FX_ONE
    &&& 0 <= c.y <= FX_ONE
    &&& 0 <= c.z <= FX_ONE
}

pub open spec fn vadd(a: Vec3, b: Vec3) -> Vec3 {
    Vec3 { x: (a.x + b.x) as i64, y: (a.y + b.y) as i64, z: (a.z + b.z) as i64 }
}

pub open spec fn vsub(a: Vec3, b: Vec3) -> Vec3 {
    Vec3 { x: (a.x - b.x) as i64, y: (a.y - b.y) as i64, z: (a.z - b.z) as i64 }
}

pub open spec fn vneg(a: Vec3) -> Vec3 {
    Vec3 { x: (-a.x) as i64, y: (-a.y) as i64, z: (-a.z) as i64 }
}

/// Component-wise product (colors filtering colors).
pub open spec fn vmul(a: Vec3, b: Vec3) -> Vec3 {
    Vec3 {
        x: fmul(a.x as int, b.x as int) as i64,
        y: fmul(a.y as int, b.y as int) as i64,
        z: fmul(a.z as int, b.z as int) as i64,
    }
}

pub open spec fn vscale(a: Vec3, s: int) -> Vec3 {
    Vec3 {
        x: fmul(a.x as int, s) as i64,
        y: fmul(a.y as int, s) as i64,
        z: fmul(a.z as int, s) as i64,
    }
}

pub open spec fn vdiv(a: Vec3, s: int) -> Vec3 {
    Vec3 {
        x: fdiv(a.x as int, s) as i64,
        y: fdiv(a.y as int, s) as i64,
        z: fdiv(a.z as int, s) as i64,
    }
}

pub open spec fn vdot(a: Vec3, b: Vec3) -> int {
    fmul(a.x as int, b.x as int) + fmul(a.y as int, b.y as int) + fmul(a.z as int, b.z as int)
}

pub open spec fn vcross(a: Vec3, b: Vec3) -> Vec3 {
    Vec3 {
        x: (fmul(a.y as int, b.z as int) - fmul(a.z as int, b.y as int)) as i64,
        y: (fmul(a.z as int, b.x as int) - fmul(a.x as int, b.z as int)) as i64,
        z: (fmul(a.x as int, b.y as int) - fmul(a.y as int, b.x as int)) as i64,
    }
}

/// The fixed-point length: the rounded-down square root of the fixed
/// squared length.
pub open spec fn vlen(v: Vec3) -> int {
    fsqrt(vdot(v, v))
}

pub open spec fn vunit(v: Vec3) -> Vec3 {
    Vec3 {
        x: fdiv(v.x as int, vlen(v)) as i64,
        y: fdiv(v.y as int, vlen(v)) as i64,
        z: fdiv(v.z as int, vlen(v)) as i64,
    }
}

pub open spec fn vreflect(d: Vec3, n: Vec3) -> Vec3 {
    vsub(d, vscale(n, 2 * vdot(d, n)))
}

pub open spec fn vrefract(d: Vec3, n: Vec3, eta: int) -> Vec3 {
    let ndot = vdot(vneg(d), n);
    let cos_theta = if ndot < FX_ONE { ndot } else { FX_ONE as int };
    let perp = vscale(vadd(d, vscale(n, cos_theta)), eta);
    let k = FX_ONE - vdot(perp, perp);
    let par = vscale(n, -fsqrt(abs(k) as int));
    vadd(perp, par)
}

pub open spec fn add_fits(a: Vec3, b: Vec3) -> bool {
    &&& fits_i64(a.x + b.x)
    &&& fits_i64(a.y + b.y)
    &&& fits_i64(a.z + b.z)
}

pub open spec fn sub_fits(a: Vec3, b: Vec3) -> bool {
    &&& fits_i64(a.x - b.x)
    &&& fits_i64(a.y - b.y)
    &&& fits_i64(a.z - b.z)
}

pub open spec fn neg_fits(a: Vec3) -> bool {
    &&& a.x > i64::MIN
    &&& a.y > i64::MIN
    &&& a.z > i64::MIN
}

pub open spec fn mul_fits(a: Vec3, b: Vec3) -> bool {
    &&& fits_i64(fmul(a.x as int, b.x as int))
    &&& fits_i64(fmul(a.y as int, b.y as int))
    &&& fits_i64(fmul(a.z as int, b.z as int))
}

pub open spec fn scale_fits(a: Vec3, s: int) -> bool {
    &&& fits_i64(fmul(a.x as int, s))
    &&& fits_i64(fmul(a.y as int, s))
    &&& fits_i64(fmul(a.z as int, s))
}

pub open spec fn div_fits(a: Vec3, s: int) -> bool {
    &&& fits_i64(fdiv(a.x as int, s))
    &&& fits_i64(fdiv(a.y as int, s))
    &&& fits_i64(fdiv(a.z as int, s))
}

impl Vec3 {
    pub fn new_empty() -> (r: Vec3)
        ensures
            r == (Vec3 { x: 0, y: 0, z: 0 }),
    {
        Vec3 { x: 0, y: 0, z: 0 }
    }

    pub fn new(e1: i64, e2: i64, e3: i64) -> (r: Vec3)
        ensures
            r == (Vec3 { x: e1, y: e2, z: e3 }),
    {
        Vec3 { x: e1, y: e2, z: e3 }
    }

    pub fn add(self, rhs: Vec3) -> (r: Vec3)
        requires
            add_fits(self, rhs),
        ensures
            r == vadd(self, rhs),
            r.x == self.x + rhs.x && r.y == self.y + rhs.y && r.z == self.z + rhs.z,
    {
        Vec3 { x: self.x + rhs.x, y: self.y + rhs.y, z: self.z + rhs.z }
    }

    pub fn add_assign(&mut self, rhs: Vec3)
        requires
            add_fits(*old(self), rhs),
        ensures
            *final(self) == vadd(*old(self), rhs),
    {
        self.x = self.x + rhs.x;
        self.y = self.y + rhs.y;
        self.z = self.z + rhs.z;
    }

    pub fn sub(self, rhs: Vec3) -> (r: Vec3)
        requires
            sub_fits(self, rhs),
        ensures
            r == vsub(self, rhs),
            r.x == self.x - rhs.x && r.y == self.y - rhs.y && r.z == self.z - rhs.z,
    {
        Vec3 { x: self.x - rhs.x, y: self.y - rhs.y, z: self.z - rhs.z }
    }

    pub fn sub_assign(&mut self, rhs: Vec3)
        requires
            sub_fits(*old(self), rhs),
        ensures
            *final(self) == vsub(*old(self), rhs),
    {
        self.x = self.x - rhs.x;
        self.y = self.y - rhs.y;
        self.z = self.z - rhs.z;
    }

    pub fn neg(self) -> (r: Vec3)
        requires
            neg_fits(self),
        ensures
            r == vneg(self),
            r.x == -self.x && r.y == -self.y && r.z == -self.z,
    {
        Vec3 { x: -self.x, y: -self.y, z: -self.z }
    }

    /// Component-wise product of two vectors (a color filtering a color).
    pub fn mul(self, rhs: Vec3) -> (r: Vec3)
        requires
            mul_fits(self, rhs),
        ensures
            r == vmul(self, rhs),
    {
        Vec3 {
            x: fx_mul(self.x, rhs.x),
            y: fx_mul(self.y, rhs.y),
            z: fx_mul(self.z, rhs.z),
        }
    }

    /// Product with a scalar.
    pub fn scale(self, rhs: i64) -> (r: Vec3)
        requires
            scale_fits(self, rhs as int),
        ensures
            r == vscale(self, rhs as int),
    {
        Vec3 {
            x: fx_mul(self.x, rhs),
            y: fx_mul(self.y, rhs),
            z: fx_mul(self.z, rhs),
        }
    }

    pub fn mul_assign(&mut self, rhs: i64)
        requires
            scale_fits(*old(self), rhs as int),
        ensures
            *final(self) == vscale(*old(self), rhs as int),
    {
        self.x = fx_mul(self.x, rhs);
        self.y = fx_mul(self.y, rhs);
        self.z = fx_mul(self.z, rhs);
    }

    /// Quotient by a scalar.
    pub fn div(self, rhs: i64) -> (r: Vec3)
        requires
            rhs != 0,
            div_fits(self, rhs as int),
        ensures
            r == vdiv(self, rhs as int),
    {
        Vec3 {
            x: fx_div(self.x, rhs),
            y: fx_div(self.y, rhs),
            z: fx_div(self.z, rhs),
        }
    }

    pub fn div_assign(&mut self, rhs: i64)
        requires
            rhs != 0,
            div_fits(*old(self), rhs as int),
        ensures
            *final(self) == vdiv(*old(self), rhs as int),
    {
        self.x = fx_div(self.x, rhs);
        self.y = fx_div(self.y, rhs);
        self.z = fx_div(self.z, rhs);
    }

    pub fn dot(self, v: Vec3) -> (r: i64)
        requires
            in_vec_range(self),
            in_vec_range(v),
        ensures
            r as int == vdot(self, v),
            -0x3000_0000_0000_0000 <= r <= 0x3000_0000_0000_0000,
    {
        proof {
            lemma_fmul_bound(self.x as int, v.x as int, VEC_LIMIT as int, VEC_LIMIT as int);
            lemma_fmul_bound(self.y as int, v.y as int, VEC_LIMIT as int, VEC_LIMIT as int);
            lemma_fmul_bound(self.z as int, v.z as int, VEC_LIMIT as int, VEC_LIMIT as int);
        }
        let a: i64 = fx_mul(self.x, v.x);
        let b: i64 = fx_mul(self.y, v.y);
        let c: i64 = fx_mul(self.z, v.z);
        a + b + c
    }

    /// The cross product: the vector perpendicular to both arguments.
    pub fn cross(self, v: Vec3) -> (r: Vec3)
        requires
            in_vec_range(self),
            in_vec_range(v),
        ensures
            r == vcross(self, v),
            -0x2000_0000_0000_0000 <= r.x <= 0x2000_0000_0000_0000,
            -0x2000_0000_0000_0000 <= r.y <= 0x2000_0000_0000_0000,
            -0x2000_0000_0000_0000 <= r.z <= 0x2000_0000_0000_0000,
    {
        proof {
            lemma_fmul_bound(self.y as int, v.z as int, VEC_LIMIT as int, VEC_LIMIT as int);
            lemma_fmul_bound(self.z as int, v.y as int, VEC_LIMIT as int, VEC_LIMIT as int);
            lemma_fmul_bound(self.z as int, v.x as int, VEC_LIMIT as int, VEC_LIMIT as int);
            lemma_fmul_bound(self.x as int, v.z as int, VEC_LIMIT as int, VEC_LIMIT as int);
            lemma_fmul_bound(self.x as int, v.y as int, VEC_LIMIT as int, VEC_LIMIT as int);
            lemma_fmul_bound(self.y as int, v.x as int, VEC_LIMIT as int, VEC_LIMIT as int);
        }
        Vec3 {
            x: fx_mul(self.y, v.z) - fx_mul(self.z, v.y),
            y: fx_mul(self.z, v.x) - fx_mul(self.x, v.z),
            z: fx_mul(self.x, v.y) - fx_mul(self.y, v.x),
        }
    }

    pub fn length_squared(self) -> (r: i64)
        requires
            in_vec_range(self),
        ensures
            r as int == vdot(self, self),
            0 <= r <= 0x3000_0000_0000_0000,
    {
        proof {
            lemma_fmul_self_lower(self.x as int);
            lemma_fmul_self_lower(self.y as int);
            lemma_fmul_self_lower(self.z as int);
        }
        self.dot(self)
    }

    pub fn length(self) -> (r: i64)
        requires
            in_vec_range(self),
        ensures
            r as int == vlen(self),
            0 <= r,
    {
        fx_sqrt(self.length_squared())
    }

    /// The vector scaled to (fixed-point) length one. The input must be
    /// long enough to carry a direction.
    pub fn unit_vector(self) -> (r: Vec3)
        requires
            in_dir_range(self),
            nondegenerate(self),
        ensures
            r == vunit(self),
            in_unit_range(r),
            -UNIT_COMP_BOUND <= r.x <= UNIT_COMP_BOUND,
            -UNIT_COMP_BOUND <= r.y <= UNIT_COMP_BOUND,
            -UNIT_COMP_BOUND <= r.z <= UNIT_COMP_BOUND,
    {
        proof {
            assert((self.x as int) * (self.x as int) <= 0x1_0000_0000_0000_0000_0000_0000
                && (self.y as int) * (self.y as int) <= 0x1_0000_0000_0000_0000_0000_0000
                && (self.z as int) * (self.z as int) <= 0x1_0000_0000_0000_0000_0000_0000)
                by (nonlinear_arith)
                requires
                    -DIR_LIMIT <= self.x <= DIR_LIMIT,
                    -DIR_LIMIT <= self.y <= DIR_LIMIT,
                    -DIR_LIMIT <= self.z <= DIR_LIMIT,
                    DIR_LIMIT == 0x1000_0000_0000i64,
            ;
            lemma_fmul_bound(self.x as int, self.x as int, DIR_LIMIT as int, DIR_LIMIT as int);
            lemma_fmul_bound(self.y as int, self.y as int, DIR_LIMIT as int, DIR_LIMIT as int);
            lemma_fmul_bound(self.z as int, self.z as int, DIR_LIMIT as int, DIR_LIMIT as int);
        }
        let xx: i128 = fmul_wide(self.x as i128, self.x as i128);
        let yy: i128 = fmul_wide(self.y as i128, self.y as i128);
        let zz: i128 = fmul_wide(self.z as i128, self.z as i128);
        let d: i128 = xx + yy + zz;
        proof {
            assert(d as int == vdot(self, self));
            lemma_fmul_self_lower(self.x as int);
            lemma_fmul_self_lower(self.y as int);
            lemma_fmul_self_lower(self.z as int);
        }
        let w: u128 = (d as u128) * 65536;
        let l: u128 = isqrt_u128(w);
        proof {
            lemma_sqrt_floor_unique(l as int, w as int);
            assert(l >= 256) by (nonlinear_arith)
                requires
                    is_sqrt_floor(l as int, w as int),
                    w >= 65536,
            ;
            assert(l < 0x80_0000_0000_0000u128) by (nonlinear_arith)
                requires
                    (l as int) * (l as int) <= w as int,
                    (w as int) < 0x4000_0000_0000_0000_0000_0000_0000,
            ;
            lemma_unit_comp_bound(self.x as int, d as int, l as int);
            lemma_unit_comp_bound(self.y as int, d as int, l as int);
            lemma_unit_comp_bound(self.z as int, d as int, l as int);
        }
        let ux: i128 = tdiv128((self.x as i128) * 65536, l as i128);
        let uy: i128 = tdiv128((self.y as i128) * 65536, l as i128);
        let uz: i128 = tdiv128((self.z as i128) * 65536, l as i128);
        Vec3 { x: ux as i64, y: uy as i64, z: uz as i64 }
    }

    /// A vector with three uniform random components in `[0, 1)`.
    pub fn random() -> (r: Vec3)
        ensures
            0 <= r.x < FX_ONE && 0 <= r.y < FX_ONE && 0 <= r.z < FX_ONE,
    {
        Vec3 { x: rand_in(0, FX_ONE), y: rand_in(0, FX_ONE), z: rand_in(0, FX_ONE) }
    }

    /// A vector with three uniform random components in `[min, max)`.
    pub fn random_range(min: i64, max: i64) -> (r: Vec3)
        requires
            min < max,
        ensures
            min <= r.x < max && min <= r.y < max && min <= r.z < max,
    {
        Vec3 { x: rand_in(min, max), y: rand_in(min, max), z: rand_in(min, max) }
    }

    /// Rejection sampling from the cube: a point strictly inside the unit
    /// ball, never degenerate. After a bounded number of rejected draws the
    /// fallback is a fixed interior point, so the function is total.
    pub fn random_in_unit_sphere() -> (r: Vec3)
        ensures
            1 <= vdot(r, r) < FX_ONE,
            -FX_ONE <= r.x <= FX_ONE && -FX_ONE <= r.y <= FX_ONE && -FX_ONE <= r.z <= FX_ONE,
    {
        let mut tries: u32 = 0;
        while tries < 32
            invariant
                true,
            decreases 32 - tries,
        {
            let p = Vec3::random_range(-FX_ONE, FX_ONE);
            let ls = p.length_squared();
            if 1 <= ls && ls < FX_ONE {
                return p;
            }
            tries = tries + 1;
        }
        let q = Vec3 { x: 32768, y: 0, z: 0 };
        proof {
            assert(vdot(q, q) == fmul(32768, 32768) + fmul(0, 0) + fmul(0, 0));
        }
        q
    }

    /// The unit vector of a random point in the unit ball. Points shorter
    /// than half a unit are rejected before normalizing: they would lose
    /// too much precision on the grid, and rejecting by radius leaves the
    /// distribution of directions unchanged.
    pub fn random_unit_vector() -> (r: Vec3)
        ensures
            in_unit_range(r),
            -UNIT_COMP_BOUND <= r.x <= UNIT_COMP_BOUND,
            -UNIT_COMP_BOUND <= r.y <= UNIT_COMP_BOUND,
            -UNIT_COMP_BOUND <= r.z <= UNIT_COMP_BOUND,
    {
        let mut tries: u32 = 0;
        while tries < 32
            invariant
                true,
            decreases 32 - tries,
        {
            let p = Vec3::random_in_unit_sphere();
            let ls = p.length_squared();
            if ls >= 16384 {
                return p.unit_vector();
            }
            tries = tries + 1;
        }
        Vec3 { x: FX_ONE, y: 0, z: 0 }
    }

    /// A point strictly inside the unit disk in the `z == 0` plane.
    pub fn random_in_unit_disk() -> (r: Vec3)
        ensures
            vdot(r, r) < FX_ONE,
            -FX_ONE <= r.x <= FX_ONE && -FX_ONE <= r.y <= FX_ONE && r.z == 0,
    {
        let mut tries: u32 = 0;
        while tries < 32
            invariant
                true,
            decreases 32 - tries,
        {
            let p = Vec3 { x: rand_in(-FX_ONE, FX_ONE), y: rand_in(-FX_ONE, FX_ONE), z: 0 };
            let ls = p.length_squared();
            if ls < FX_ONE {
                return p;
            }
            tries = tries + 1;
        }
        let q = Vec3 { x: 0, y: 0, z: 0 };
        proof {
            assert(vdot(q, q) == 0);
        }
        q
    }

    /// True when the vector is too short to carry a direction at this
    /// resolution (its fixed squared length truncates to zero).
    pub fn near_zero(&self) -> (r: bool)
        requires
            in_vec_range(*self),
        ensures
            r == !nondegenerate(*self),
    {
        proof {
            lemma_fmul_self_lower(self.x as int);
            lemma_fmul_self_lower(self.y as int);
            lemma_fmul_self_lower(self.z as int);
        }
        let d = self.length_squared();
        d == 0
    }

    /// Mirror reflection about a surface normal. Both arguments are
    /// expected at unit scale.
    pub fn reflect(in_direction: &Vec3, normal: &Vec3) -> (r: Vec3)
        requires
            in_unit_range(*in_direction),
            in_unit_range(*normal),
        ensures
            r == vreflect(*in_direction, *normal),
            -0x400_0000 <= r.x <= 0x400_0000,
            -0x400_0000 <= r.y <= 0x400_0000,
            -0x400_0000 <= r.z <= 0x400_0000,
    {
        proof {
            lemma_fmul_bound(in_direction.x as int, normal.x as int, UNIT_LIMIT as int, UNIT_LIMIT as int);
            lemma_fmul_bound(in_direction.y as int, normal.y as int, UNIT_LIMIT as int, UNIT_LIMIT as int);
            lemma_fmul_bound(in_direction.z as int, normal.z as int, UNIT_LIMIT as int, UNIT_LIMIT as int);
        }
        let s: i64 = in_direction.dot(*normal);
        let t: i64 = 2 * s;
        proof {
            lemma_fmul_bound(normal.x as int, t as int, UNIT_LIMIT as int, 0x60_0000);
            lemma_fmul_bound(normal.y as int, t as int, UNIT_LIMIT as int, 0x60_0000);
            lemma_fmul_bound(normal.z as int, t as int, UNIT_LIMIT as int, 0x60_0000);
        }
        let scaled = normal.scale(t);
        in_direction.sub(scaled)
    }

    /// Vector Snell refraction. The caller has already decided, by the
    /// total-internal-reflection and Fresnel tests, that refraction is the
    /// chosen outcome.
    pub fn refract(in_direction: &Vec3, normal: &Vec3, etai_over_etat: i64) -> (r: Vec3)
        requires
            in_unit_range(*in_direction),
            in_unit_range(*normal),
            0 < etai_over_etat <= 0x10_0000,
        ensures
            r == vrefract(*in_direction, *normal, etai_over_etat as int),
            -0x2_0000_0000 <= r.x <= 0x2_0000_0000,
            -0x2_0000_0000 <= r.y <= 0x2_0000_0000,
            -0x2_0000_0000 <= r.z <= 0x2_0000_0000,
    {
        proof {
            lemma_fmul_bound(-(in_direction.x as int), normal.x as int, UNIT_LIMIT as int, UNIT_LIMIT as int);
            lemma_fmul_bound(-(in_direction.y as int), normal.y as int, UNIT_LIMIT as int, UNIT_LIMIT as int);
            lemma_fmul_bound(-(in_direction.z as int), normal.z as int, UNIT_LIMIT as int, UNIT_LIMIT as int);
        }
        let neg_d = in_direction.neg();
        let ndot: i64 = neg_d.dot(*normal);
        let cos_theta: i64 = if ndot < FX_ONE { ndot } else { FX_ONE };
        proof {
            lemma_fmul_bound(normal.x as int, cos_theta as int, UNIT_LIMIT as int, 0x40_0000);
            lemma_fmul_bound(normal.y as int, cos_theta as int, UNIT_LIMIT as int, 0x40_0000);
            lemma_fmul_bound(normal.z as int, cos_theta as int, UNIT_LIMIT as int, 0x40_0000);
        }
        let scaled_n = normal.scale(cos_theta);
        let sum_d = in_direction.add(scaled_n);
        proof {
            lemma_fmul_bound(sum_d.x as int, etai_over_etat as int, 0x200_0000, 0x10_0000);
            lemma_fmul_bound(sum_d.y as int, etai_over_etat as int, 0x200_0000, 0x10_0000);
            lemma_fmul_bound(sum_d.z as int, etai_over_etat as int, 0x200_0000, 0x10_0000);
        }
        let perp = sum_d.scale(etai_over_etat);
        proof {
            lemma_fmul_bound(perp.x as int, perp.x as int, 0x2000_0000, 0x2000_0000);
            lemma_fmul_bound(perp.y as int, perp.y as int, 0x2000_0000, 0x2000_0000);
            lemma_fmul_bound(perp.z as int, perp.z as int, 0x2000_0000, 0x2000_0000);
        }
        let ls: i64 = perp.length_squared();
        let k: i64 = FX_ONE - ls;
        let abs_k: i64 = if k < 0 { -k } else { k };
        let sq: i64 = fx_sqrt(abs_k);
        proof {
            lemma_sqrt_floor_exists((abs_k as int) * (FX_ONE as int));
            assert(sq <= 0x4000_0000i64) by (nonlinear_arith)
                requires
                    is_sqrt_floor(sq as int, (abs_k as int) * 65536),
                    0 <= abs_k <= 0x1000_0000_0000i64,
            ;
            lemma_fmul_bound(normal.x as int, -(sq as int), UNIT_LIMIT as int, 0x4000_0000);
            lemma_fmul_bound(normal.y as int, -(sq as int), UNIT_LIMIT as int, 0x4000_0000);
            lemma_fmul_bound(normal.z as int, -(sq as int), UNIT_LIMIT as int, 0x4000_0000);
        }
        let par = normal.scale(-sq);
        perp.add(par)
    }
}

impl Default for Vec3 {
    fn default() -> (r: Self)
        ensures
            r == (Vec3 { x: 0, y: 0, z: 0 }),
    {
        Vec3 { x: 0, y: 0, z: 0 }
    }
}

impl Color {
    /// Zero radiance on every channel.
    pub fn black() -> (r: Color)
        ensures
            r == (Vec3 { x: 0, y: 0, z: 0 }),
    {
        Color { x: 0, y: 0, z: 0 }
    }

    /// Full-scale radiance on every channel.
    pub fn white() -> (r: Color)
        ensures
            r == (Vec3 { x: FX_ONE, y: FX_ONE, z: FX_ONE }),
    {
        Color { x: FX_ONE, y: FX_ONE, z: FX_ONE }
    }
}

/// Bound each component of a computed unit vector: the quotient of a
/// component by the vector's fixed-point length is at most two whole units.
proof fn lemma_unit_comp_bound(c: int, d: int, l: int)
    requires
        fmul(c, c) <= d,
        256 <= l,
        l * l <= d * 65536,
        d * 65536 < (l + 1) * (l + 1),
        -DIR_LIMIT <= c <= DIR_LIMIT,
    ensures
        -UNIT_COMP_BOUND <= fdiv(c, l) <= UNIT_COMP_BOUND,
{
    let m = if c < 0 { -c } else { c };
    lemma_fmul_self_lower(c);
    if m <= 511 {
        assert(131072 * 256 <= 131072 * l) by (nonlinear_arith)
            requires
                256 <= l,
        ;
        lemma_tdiv_bound(c * 65536, l, 131072);
    } else {
        assert(c * c == m * m) by (nonlinear_arith)
            requires
                m == if c < 0 { -c } else { c },
        ;
        if l + 1 <= m - 256 {
            assert((l + 1) * (l + 1) <= (m - 256) * (m - 256)) by (nonlinear_arith)
                requires
                    0 <= l + 1 <= m - 256,
            ;
            assert((m - 256) * (m - 256) == m * m - 512 * m + 65536) by (nonlinear_arith);
            assert(m * m - 512 * m + 65536 < m * m - 65536) by (nonlinear_arith)
                requires
                    m >= 512,
            ;
            assert(false);
        }
        assert(131072 * (m - 256) <= 131072 * l) by (nonlinear_arith)
            requires
                m - 256 <= l,
        ;
        assert(65536 * m <= 131072 * (m - 256)) by (nonlinear_arith)
            requires
                m >= 512,
        ;
        lemma_tdiv_bound(c * 65536, l, 131072);
    }
}

/// Negating a vector keeps its squared length.
pub proof fn lemma_vneg_self_dot(v: Vec3)
    requires
        neg_fits(v),
    ensures
        vdot(vneg(v), vneg(v)) == vdot(v, v),
{
    lemma_fmul_neg(v.x as int, -(v.x as int));
    lemma_fmul_commutes(v.x as int, -(v.x as int));
    lemma_fmul_neg(v.x as int, v.x as int);
    lemma_fmul_neg(v.y as int, -(v.y as int));
    lemma_fmul_commutes(v.y as int, -(v.y as int));
    lemma_fmul_neg(v.y as int, v.y as int);
    lemma_fmul_neg(v.z as int, -(v.z as int));
    lemma_fmul_commutes(v.z as int, -(v.z as int));
    lemma_fmul_neg(v.z as int, v.z as int);
}

/// Vector addition commutes.
pub proof fn lemma_vadd_commutes(a: Vec3, b: Vec3)
    ensures
        vadd(a, b) == vadd(b, a),
{
}

/// The dot product commutes.
pub proof fn lemma_vdot_commutes(a: Vec3, b: Vec3)
    ensures
        vdot(a, b) == vdot(b, a),
{
    lemma_fmul_commutes(a.x as int, b.x as int);
    lemma_fmul_commutes(a.y as int, b.y as int);
    lemma_fmul_commutes(a.z as int, b.z as int);
}

/// The cross product is antisymmetric: swapping the arguments negates it.
pub proof fn lemma_vcross_antisymmetric(a: Vec3, b: Vec3)
    requires
        in_vec_range(a),
        in_vec_range(b),
    ensures
        vcross(a, b) == vneg(vcross(b, a)),
{
    lemma_fmul_bound(a.x as int, b.y as int, VEC_LIMIT as int, VEC_LIMIT as int);
    lemma_fmul_bound(a.y as int, b.x as int, VEC_LIMIT as int, VEC_LIMIT as int);
    lemma_fmul_bound(a.y as int, b.z as int, VEC_LIMIT as int, VEC_LIMIT as int);
    lemma_fmul_bound(a.z as int, b.y as int, VEC_LIMIT as int, VEC_LIMIT as int);
    lemma_fmul_bound(a.z as int, b.x as int, VEC_LIMIT as int, VEC_LIMIT as int);
    lemma_fmul_bound(a.x as int, b.z as int, VEC_LIMIT as int, VEC_LIMIT as int);
    lemma_fmul_commutes(a.x as int, b.y as int);
    lemma_fmul_commutes(a.y as int, b.x as int);
    lemma_fmul_commutes(a.y as int, b.z as int);
    lemma_fmul_commutes(a.z as int, b.y as int);
    lemma_fmul_commutes(a.z as int, b.x as int);
    lemma_fmul_commutes(a.x as int, b.z as int);
}

/// A vector plus its negation is the zero vector.
pub proof fn lemma_vadd_vneg_zero(a: Vec3)
    requires
        neg_fits(a),
    ensures
        vadd(a, vneg(a)) == (Vec3 { x: 0, y: 0, z: 0 }),
{
}

/// A truncated quotient and its numerator sandwich each other through the
/// divisor, stated over magnitudes.
proof fn lemma_fdiv_sandwich(c: int, l: int)
    requires
        l > 0,
    ensures
        ({
            let q = fdiv(c, l);
            let aq = if q < 0 {
                -q
            } else {
                q
            };
            let ac = if c < 0 {
                -c
            } else {
                c
            };
            0 <= aq && aq * l <= ac * 65536 && ac * 65536 < (aq + 1) * l
        }),
{
    let q = fdiv(c, l);
    let aq = if q < 0 {
        -q
    } else {
        q
    };
    let ac = if c < 0 {
        -c
    } else {
        c
    };
    if c >= 0 {
        lemma_tdiv_nonneg(c * 65536, l);
        assert(aq == q);
        assert((q + 1) * l == q * l + l) by (nonlinear_arith);
    } else {
        let a2 = (-c) * 65536;
        assert(c * 65536 == -a2);
        lemma_tdiv_neg(a2, l);
        lemma_tdiv_nonneg(a2, l);
        let q2 = tdiv(a2, l);
        assert(q == -q2);
        assert(aq == q2);
        assert(ac * 65536 == a2);
        assert((q2 + 1) * l == q2 * l + l) by (nonlinear_arith);
    }
}

/// Squared form of the sandwich: the squared quotient against the squared
/// numerator.
proof fn lemma_comp_square_bounds(c: int, l: int)
    requires
        l > 0,
    ensures
        ({
            let q = fdiv(c, l);
            let aq = if q < 0 {
                -q
            } else {
                q
            };
            &&& (q * q) * (l * l) <= (c * c) * 0x1_0000_0000
            &&& (c * c) * 0x1_0000_0000 < ((aq + 1) * (aq + 1)) * (l * l)
            &&& aq * aq == q * q
            &&& 0 <= aq
        }),
{
    lemma_fdiv_sandwich(c, l);
    let q = fdiv(c, l);
    let aq = if q < 0 {
        -q
    } else {
        q
    };
    let ac = if c < 0 {
        -c
    } else {
        c
    };
    assert(aq * aq == q * q) by (nonlinear_arith)
        requires
            aq == q || aq == -q,
    ;
    assert(ac * ac == c * c) by (nonlinear_arith)
        requires
            ac == c || ac == -c,
    ;
    assert((q * q) * (l * l) <= (c * c) * 0x1_0000_0000) by (nonlinear_arith)
        requires
            aq * l <= ac * 65536,
            0 <= aq,
            0 <= ac,
            0 < l,
            aq * aq == q * q,
            ac * ac == c * c,
    ;
    assert((c * c) * 0x1_0000_0000 < ((aq + 1) * (aq + 1)) * (l * l)) by (nonlinear_arith)
        requires
            ac * 65536 < (aq + 1) * l,
            0 <= aq,
            0 <= ac,
            0 < l,
            ac * ac == c * c,
    ;
}

/// The unit vector has length one up to grid error: for any vector at
/// least half a unit long (and within direction range), the fixed squared
/// length of its unit vector is within a few dozen grid steps of one.
/// (Shorter vectors are too coarse for the grid to normalize accurately;
/// `random_unit_vector` rejects them for the same reason.)
pub proof fn lemma_vunit_near_unit(v: Vec3)
    requires
        in_dir_range(v),
        vdot(v, v) >= 16384,
    ensures
        FX_ONE - 16 <= vdot(vunit(v), vunit(v)) <= FX_ONE + 64,
{
    let c1 = v.x as int;
    let c2 = v.y as int;
    let c3 = v.z as int;
    let d = vdot(v, v);
    lemma_sqrt_floor_exists(d * (FX_ONE as int));
    let l = vlen(v);
    assert(0 <= l && l * l <= d * 65536 && d * 65536 < (l + 1) * (l + 1));
    assert(l >= 32768) by (nonlinear_arith)
        requires
            0 <= l,
            d * 65536 < (l + 1) * (l + 1),
            d * 65536 >= 0x4000_0000,
    ;
    assert(d * 65536 - 2 * l >= 0) by (nonlinear_arith)
        requires
            l * l <= d * 65536,
            l >= 32768,
    ;
    assert((l + 1) * (l + 1) == l * l + 2 * l + 1) by (nonlinear_arith);
    // the unit components and their magnitudes
    let q1 = fdiv(c1, l);
    let q2 = fdiv(c2, l);
    let q3 = fdiv(c3, l);
    lemma_comp_square_bounds(c1, l);
    lemma_comp_square_bounds(c2, l);
    lemma_comp_square_bounds(c3, l);
    let a1 = if q1 < 0 {
        -q1
    } else {
        q1
    };
    let a2 = if q2 < 0 {
        -q2
    } else {
        q2
    };
    let a3 = if q3 < 0 {
        -q3
    } else {
        q3
    };
    // components stay castable, so vunit really holds the quotients
    lemma_fmul_self_lower(c1);
    lemma_fmul_self_lower(c2);
    lemma_fmul_self_lower(c3);
    lemma_unit_comp_bound(c1, d, l);
    lemma_unit_comp_bound(c2, d, l);
    lemma_unit_comp_bound(c3, d, l);
    let u = vunit(v);
    assert(u.x as int == q1 && u.y as int == q2 && u.z as int == q3);
    let uu = vdot(u, u);
    // truncated squares against exact squares, componentwise and summed
    assert(q1 * q1 >= 0 && q2 * q2 >= 0 && q3 * q3 >= 0) by (nonlinear_arith);
    assert(c1 * c1 >= 0 && c2 * c2 >= 0 && c3 * c3 >= 0) by (nonlinear_arith);
    lemma_tdiv_nonneg(q1 * q1, 65536);
    lemma_tdiv_nonneg(q2 * q2, 65536);
    lemma_tdiv_nonneg(q3 * q3, 65536);
    let su2 = q1 * q1 + q2 * q2 + q3 * q3;
    let sc2 = c1 * c1 + c2 * c2 + c3 * c3;
    assert(uu * 65536 <= su2 && su2 < uu * 65536 + 3 * 65536);
    assert(d * 65536 <= sc2 && sc2 < d * 65536 + 3 * 65536);
    // upper bound: uu <= FX_ONE + 64
    assert(su2 * (l * l) == (q1 * q1) * (l * l) + (q2 * q2) * (l * l) + (q3 * q3) * (l * l))
        by (nonlinear_arith)
        requires
            su2 == q1 * q1 + q2 * q2 + q3 * q3,
    ;
    assert(su2 * (l * l) <= sc2 * 0x1_0000_0000);
    assert(uu * 65536 * (l * l) <= su2 * (l * l)) by (nonlinear_arith)
        requires
            uu * 65536 <= su2,
            l * l >= 0,
    ;
    assert(uu * 65536 * (d * 65536 - 2 * l) <= uu * 65536 * (l * l)) by (nonlinear_arith)
        requires
            d * 65536 - 2 * l <= l * l,
            uu >= 0,
    ;
    if uu >= 65536 + 65 {
        assert(4299227136 * (d * 65536 - 2 * l) <= uu * 65536 * (d * 65536 - 2 * l))
            by (nonlinear_arith)
            requires
                uu >= 65601,
                d * 65536 - 2 * l >= 0,
        ;
        assert(4299227136 * (d * 65536 - 2 * l) <= (d * 65536 + 3 * 65536) * 0x1_0000_0000);
        assert(65 * (l * l) <= 12884901888 + 131202 * l);
        assert(false) by (nonlinear_arith)
            requires
                65 * (l * l) <= 12884901888 + 131202 * l,
                l >= 32768,
        ;
    }
    // lower bound: uu >= FX_ONE - 16
    assert(((a1 + 1) * (a1 + 1)) == a1 * a1 + 2 * a1 + 1) by (nonlinear_arith);
    assert(((a2 + 1) * (a2 + 1)) == a2 * a2 + 2 * a2 + 1) by (nonlinear_arith);
    assert(((a3 + 1) * (a3 + 1)) == a3 * a3 + 2 * a3 + 1) by (nonlinear_arith);
    let k = (a1 + 1) * (a1 + 1) + (a2 + 1) * (a2 + 1) + (a3 + 1) * (a3 + 1);
    assert(a1 <= 131072 && a2 <= 131072 && a3 <= 131072);
    assert(k <= uu * 65536 + 3 * 65536 + 2 * 3 * 131072 + 3);
    assert(k * (l * l) == ((a1 + 1) * (a1 + 1)) * (l * l) + ((a2 + 1) * (a2 + 1)) * (l * l) + ((
    a3 + 1) * (a3 + 1)) * (l * l)) by (nonlinear_arith)
        requires
            k == (a1 + 1) * (a1 + 1) + (a2 + 1) * (a2 + 1) + (a3 + 1) * (a3 + 1),
    ;
    assert(sc2 * 0x1_0000_0000 < k * (l * l));
    assert(k * (l * l) <= k * (d * 65536)) by (nonlinear_arith)
        requires
            l * l <= d * 65536,
            k >= 0,
    ;
    assert((d * 65536) * 0x1_0000_0000 < k * (d * 65536));
    assert(0x1_0000_0000 < k) by (nonlinear_arith)
        requires
            (d * 65536) * 0x1_0000_0000 < k * (d * 65536),
            d * 65536 > 0,
    ;
    assert(uu * 65536 > 0x1_0000_0000 - 3 * 65536 - 2 * 3 * 131072 - 3 - 1);
}

/// Normalization is exact where the grid is: a vector along an axis whose
/// component is a positive multiple of 256 has the unit vector of length
/// exactly one. (For general vectors the unit length holds only up to
/// truncation error.)
pub proof fn lemma_vunit_exact_on_axis(k: int)
    requires
        1 <= k <= 0x1_0000_0000,
    ensures
        vunit(Vec3 { x: (256 * k) as i64, y: 0, z: 0 }) == (Vec3 { x: FX_ONE, y: 0, z: 0 }),
        vdot(vunit(Vec3 { x: (256 * k) as i64, y: 0, z: 0 }), vunit(Vec3 { x: (256 * k) as i64, y: 0, z: 0 }))
            == FX_ONE,
{
    let c = 256 * k;
    let v = Vec3 { x: c as i64, y: 0, z: 0 };
    assert(c * c == (k * k) * 65536) by (nonlinear_arith)
        requires
            c == 256 * k,
    ;
    lemma_tdiv_mul_cancel(k * k, 65536);
    assert(vdot(v, v) == k * k);
    assert(is_sqrt_floor(c, c * c)) by (nonlinear_arith)
        requires
            c >= 1,
    ;
    lemma_sqrt_floor_unique(c, c * c);
    assert(vlen(v) == c);
    assert(c * 65536 == 65536 * c) by (nonlinear_arith)
        requires
            c == 256 * k,
    ;
    lemma_tdiv_mul_cancel(65536, c);
    assert(fdiv(c, c) == 65536);
    let u = vunit(v);
    assert(u == (Vec3 { x: FX_ONE, y: 0, z: 0 }));
    lemma_tdiv_mul_cancel(65536, 65536);
}

/// A ray striking a mirror head-on (direction the exact negation of a
/// surface normal of fixed-point length one) reflects into the exact
/// negation of its direction.
pub proof fn lemma_reflect_head_on(n: Vec3)
    requires
        in_vec_range(n),
        vdot(n, n) == FX_ONE,
    ensures
        vreflect(vneg(n), n) == n,
        vreflect(vneg(n), n) == vneg(vneg(n)),
{
    let d = vneg(n);
    lemma_fmul_neg(n.x as int, n.x as int);
    lemma_fmul_neg(n.y as int, n.y as int);
    lemma_fmul_neg(n.z as int, n.z as int);
    assert(vdot(d, n) == -(FX_ONE as int));
    let t = 2 * vdot(d, n);
    assert(t == -131072);
    assert(fmul(n.x as int, t) == -2 * n.x) by {
        assert((n.x as int) * (-131072) == (-2 * n.x) * 65536) by (nonlinear_arith);
        lemma_tdiv_mul_cancel(-2 * n.x, 65536);
    }
    assert(fmul(n.y as int, t) == -2 * n.y) by {
        assert((n.y as int) * (-131072) == (-2 * n.y) * 65536) by (nonlinear_arith);
        lemma_tdiv_mul_cancel(-2 * n.y, 65536);
    }
    assert(fmul(n.z as int, t) == -2 * n.z) by {
        assert((n.z as int) * (-131072) == (-2 * n.z) * 65536) by (nonlinear_arith);
        lemma_tdiv_mul_cancel(-2 * n.z, 65536);
    }
}

} // verus!
