//! Fixed-point scalars.
//!
//! A scalar is an `i64` holding `value * 65536`: sixteen fractional bits.
//! All arithmetic is exact integer arithmetic followed by truncation toward
//! zero, so every operation has a precise mathematical description, given
//! here as spec functions over `int`.

use vstd::prelude::*;
use vstd::arithmetic::div_mod::*;
use vstd::arithmetic::mul::*;

verus! {

/// One whole unit: the raw representation of 1.0.
pub const FX_ONE: i64 = 65536;

/// Largest magnitude accepted for a world coordinate, a sphere radius or a
/// ray-parameter bound (65536 whole units).
pub const COORD_LIMIT: i64 = 0x1_0000_0000;

/// Largest magnitude accepted for a ray direction component.
pub const DIR_LIMIT: i64 = 0x1000_0000_0000;

pub open spec fn fits_i64(x: int) -> bool {
    i64::MIN <= x <= i64::MAX
}

/// Integer division truncating toward zero: the division of Rust's `/`,
/// written over the Euclidean `/` of specifications.
pub open spec fn tdiv(x: int, d: int) -> int {
    if x == 0 {
        0
    } else if x > 0 && d > 0 {
        x / d
    } else if x < 0 && d < 0 {
        (x * -1) / (d * -1)
    } else if x < 0 {
        ((x * -1) / d) * -1
    } else {
        (x / (d * -1)) * -1
    }
}

/// The fixed-point product: the exact integer product, brought back to the
/// grid by truncation.
pub open spec fn fmul(a: int, b: int) -> int {
    tdiv(a * b, FX_ONE as int)
}

/// The fixed-point quotient.
pub open spec fn fdiv(a: int, b: int) -> int {
    tdiv(a * FX_ONE, b)
}

pub open spec fn fclamp(x: int, lo: int, hi: int) -> int {
    if x < lo {
        lo
    } else if x > hi {
        hi
    } else {
        x
    }
}

/// `r` is the integer square root of `x`, rounded down.
pub open spec fn is_sqrt_floor(r: int, x: int) -> bool {
    0 <= r && r * r <= x && x < (r + 1) * (r + 1)
}

pub open spec fn sqrt_floor(x: int) -> int {
    choose|r: int| is_sqrt_floor(r, x)
}

/// The square root of a fixed-point value: `sqrt(v) * 65536 == sqrt(v_raw * 65536)`.
pub open spec fn fsqrt(x: int) -> int {
    sqrt_floor(x * FX_ONE)
}

pub proof fn lemma_sqrt_floor_exists(x: int)
    requires
        0 <= x,
    ensures
        is_sqrt_floor(sqrt_floor(x), x),
    decreases x,
{
    if x == 0 {
        assert(is_sqrt_floor(0, 0));
    } else {
        lemma_sqrt_floor_exists(x - 1);
        let r0 = sqrt_floor(x - 1);
        if (r0 + 1) * (r0 + 1) == x {
            assert((r0 + 2) * (r0 + 2) > x) by (nonlinear_arith)
                requires
                    r0 >= 0,
                    (r0 + 1) * (r0 + 1) == x,
            ;
            assert(is_sqrt_floor(r0 + 1, x));
        } else {
            assert(is_sqrt_floor(r0, x));
        }
    }
}

pub proof fn lemma_sqrt_floor_unique(r: int, x: int)
    requires
        is_sqrt_floor(r, x),
    ensures
        r == sqrt_floor(x),
{
    let s = sqrt_floor(x);
    assert(is_sqrt_floor(s, x));
    assert(r == s) by (nonlinear_arith)
        requires
            is_sqrt_floor(r, x),
            is_sqrt_floor(s, x),
    ;
}

/// Truncating division negates with its numerator.
pub proof fn lemma_tdiv_neg(a: int, d: int)
    requires
        d > 0,
    ensures
        tdiv(-a, d) == -tdiv(a, d),
{
}

/// A bound on the numerator bounds the truncated quotient.
pub proof fn lemma_tdiv_bound(a: int, d: int, m: int)
    requires
        d > 0,
        0 <= m,
        -(m * d) <= a <= m * d,
    ensures
        -m <= tdiv(a, d) <= m,
{
    if a > 0 {
        lemma_div_is_ordered(a, m * d, d);
        lemma_div_multiples_vanish(m, d);
        lemma_div_pos_is_pos(a, d);
        assert(m * d == d * m) by (nonlinear_arith);
    } else if a < 0 {
        lemma_div_is_ordered(-a, m * d, d);
        lemma_div_multiples_vanish(m, d);
        lemma_div_pos_is_pos(-a, d);
        assert(m * d == d * m) by (nonlinear_arith);
    }
}

/// Division is monotone in the numerator, also under truncation.
pub proof fn lemma_tdiv_ordered(a: int, b: int, d: int)
    requires
        d > 0,
        a <= b,
    ensures
        tdiv(a, d) <= tdiv(b, d),
{
    if a == 0 {
        if b > 0 {
            lemma_div_pos_is_pos(b, d);
        } else {
            assert(b == 0);
        }
    } else if a > 0 {
        lemma_div_is_ordered(a, b, d);
    } else if b >= 0 {
        lemma_div_pos_is_pos(-a, d);
        if b > 0 {
            lemma_div_pos_is_pos(b, d);
        }
    } else {
        lemma_div_is_ordered(-b, -a, d);
    }
}

/// Multiples of the scale divide out exactly.
pub proof fn lemma_tdiv_mul_cancel(k: int, d: int)
    requires
        d > 0,
    ensures
        tdiv(k * d, d) == k,
{
    lemma_div_multiples_vanish(k, d);
    assert(k * d == d * k) by (nonlinear_arith);
    if k < 0 {
        assert((k * d) * -1 == (-k) * d) by (nonlinear_arith);
        lemma_div_multiples_vanish(-k, d);
        assert(d * (-k) == (-k) * d) by (nonlinear_arith);
    }
}

/// The fixed product of values in `[0, 1]` stays in `[0, 1]`.
pub proof fn lemma_fmul_unit_interval(a: int, b: int)
    requires
        0 <= a <= FX_ONE,
        0 <= b <= FX_ONE,
    ensures
        0 <= fmul(a, b) <= FX_ONE,
        fmul(a, b) <= a,
        fmul(a, b) <= b,
{
    let s = FX_ONE as int;
    assert(0 <= a * b <= a * s && a * b <= b * s && a * b <= s * s) by (nonlinear_arith)
        requires
            0 <= a <= s,
            0 <= b <= s,
    ;
    if a * b > 0 {
        lemma_div_pos_is_pos(a * b, s);
        lemma_div_is_ordered(a * b, a * s, s);
        lemma_div_is_ordered(a * b, b * s, s);
        lemma_div_multiples_vanish(a, s);
        lemma_div_multiples_vanish(b, s);
        assert(a * s == s * a && b * s == s * b) by (nonlinear_arith);
    }
}

/// A bound on both factors bounds the fixed product.
pub proof fn lemma_fmul_bound(a: int, b: int, ma: int, mb: int)
    requires
        0 <= ma,
        0 <= mb,
        -ma <= a <= ma,
        -mb <= b <= mb,
    ensures
        -(ma * mb) <= a * b <= ma * mb,
        fmul(a, b) * FX_ONE <= ma * mb,
        -(ma * mb) <= fmul(a, b) * FX_ONE,
{
    let s = FX_ONE as int;
    assert(-(ma * mb) <= a * b <= ma * mb) by (nonlinear_arith)
        requires
            0 <= ma,
            0 <= mb,
            -ma <= a <= ma,
            -mb <= b <= mb,
    ;
    lemma_tdiv_bound_raw(a * b, s, ma * mb);
}

/// A raw bound on the numerator bounds `tdiv * d`.
pub proof fn lemma_tdiv_bound_raw(a: int, d: int, m: int)
    requires
        d > 0,
        0 <= m,
        -m <= a <= m,
    ensures
        -m <= tdiv(a, d) * d <= m,
        -m <= tdiv(a, d) <= m,
{
    if a > 0 {
        lemma_fundamental_div_mod(a, d);
        lemma_mod_bound(a, d);
        lemma_div_pos_is_pos(a, d);
        assert(d * (a / d) == (a / d) * d) by (nonlinear_arith);
        assert(tdiv(a, d) * d <= a);
        assert(0 <= tdiv(a, d));
        assert(tdiv(a, d) <= tdiv(a, d) * d) by (nonlinear_arith)
            requires
                d > 0,
                0 <= tdiv(a, d),
        ;
    } else if a < 0 {
        lemma_fundamental_div_mod(-a, d);
        lemma_mod_bound(-a, d);
        lemma_div_pos_is_pos(-a, d);
        assert(d * ((-a) / d) == ((-a) / d) * d) by (nonlinear_arith);
        assert(((-a) / d) * d <= -a);
        assert(0 <= (-a) / d);
        assert((-a) / d <= ((-a) / d) * d) by (nonlinear_arith)
            requires
                d > 0,
                0 <= (-a) / d,
        ;
        assert(tdiv(a, d) == (((a * -1) / d)) * -1);
        assert((((-a) / d) * -1) * d == (((-a) / d) * d) * -1) by (nonlinear_arith);
    }
}

/// Truncation of a nonnegative numerator loses less than one step of the
/// divisor.
pub proof fn lemma_tdiv_nonneg(a: int, d: int)
    requires
        0 <= a,
        0 < d,
    ensures
        0 <= tdiv(a, d),
        tdiv(a, d) * d <= a,
        a - d < tdiv(a, d) * d,
{
    if a > 0 {
        lemma_fundamental_div_mod(a, d);
        lemma_mod_bound(a, d);
        lemma_div_pos_is_pos(a, d);
        assert(d * (a / d) == (a / d) * d) by (nonlinear_arith);
    }
}

/// The fixed product commutes.
pub proof fn lemma_fmul_commutes(a: int, b: int)
    ensures
        fmul(a, b) == fmul(b, a),
{
    lemma_mul_is_commutative(a, b);
}

/// The fixed product negates with either factor.
pub proof fn lemma_fmul_neg(a: int, b: int)
    ensures
        fmul(-a, b) == -fmul(a, b),
{
    assert((-a) * b == -(a * b)) by (nonlinear_arith);
    lemma_tdiv_neg(a * b, FX_ONE as int);
}

/// The fixed square is nonnegative and loses less than one grid step.
pub proof fn lemma_fmul_self_lower(c: int)
    ensures
        0 <= fmul(c, c),
        c * c - FX_ONE < fmul(c, c) * FX_ONE,
        fmul(c, c) * FX_ONE <= c * c,
{
    assert(0 <= c * c) by (nonlinear_arith);
    lemma_tdiv_nonneg(c * c, FX_ONE as int);
}

/// The fixed product of nonnegative factors is nonnegative.
pub proof fn lemma_fmul_nonneg(a: int, b: int)
    requires
        0 <= a,
        0 <= b,
    ensures
        0 <= fmul(a, b),
{
    assert(0 <= a * b) by (nonlinear_arith)
        requires
            0 <= a,
            0 <= b,
    ;
    lemma_tdiv_nonneg(a * b, FX_ONE as int);
}

/// The fixed square of a scalar of magnitude at most one is in `[0, 1]`.
pub proof fn lemma_fmul_square_le_one(c: int)
    requires
        -FX_ONE <= c <= FX_ONE,
    ensures
        0 <= fmul(c, c) <= FX_ONE,
{
    lemma_fmul_self_lower(c);
    assert(c * c <= 65536 * 65536) by (nonlinear_arith)
        requires
            -65536 <= c <= 65536,
    ;
    lemma_tdiv_ordered(c * c, 65536int * 65536, 65536);
    lemma_tdiv_mul_cancel(65536, 65536);
}

/// Truncating division of `i128` values, through `checked_div`.
pub(crate) fn tdiv128(a: i128, b: i128) -> (r: i128)
    requires
        b != 0,
        a != i128::MIN,
    ensures
        r as int == tdiv(a as int, b as int),
{
    proof {
        let x = a as int;
        let d = b as int;
        if x > 0 {
            if d > 0 {
                lemma_div_pos_is_pos(x, d);
                lemma_div_nonincreasing(x, d);
            } else {
                lemma_div_pos_is_pos(x, -d);
                lemma_div_nonincreasing(x, -d);
            }
        } else if x < 0 {
            if d > 0 {
                lemma_div_pos_is_pos(-x, d);
                lemma_div_nonincreasing(-x, d);
            } else {
                lemma_div_pos_is_pos(-x, -d);
                lemma_div_nonincreasing(-x, -d);
            }
        }
    }
    a.checked_div(b).unwrap()
}

/// The fixed-point product of two scalars.
pub fn fx_mul(a: i64, b: i64) -> (r: i64)
    requires
        fits_i64(fmul(a as int, b as int)),
    ensures
        r as int == fmul(a as int, b as int),
{
    proof {
        assert((a as int) * (b as int) < i128::MAX && i128::MIN < (a as int) * (b as int))
            by (nonlinear_arith)
            requires
                i64::MIN <= a <= i64::MAX,
                i64::MIN <= b <= i64::MAX,
        ;
    }
    let p: i128 = (a as i128) * (b as i128);
    let q: i128 = tdiv128(p, FX_ONE as i128);
    q as i64
}

/// The fixed-point quotient of two scalars.
pub fn fx_div(a: i64, b: i64) -> (r: i64)
    requires
        b != 0,
        fits_i64(fdiv(a as int, b as int)),
    ensures
        r as int == fdiv(a as int, b as int),
{
    let p: i128 = (a as i128) * (FX_ONE as i128);
    let q: i128 = tdiv128(p, b as i128);
    q as i64
}

/// The fixed-point product over wide intermediates, for the quadratic solver.
pub(crate) fn fmul_wide(a: i128, b: i128) -> (r: i128)
    requires
        -0x4000_0000_0000_0000_0000_0000_0000_0000 <= (a as int) * (b as int)
            <= 0x4000_0000_0000_0000_0000_0000_0000_0000,
    ensures
        r as int == fmul(a as int, b as int),
{
    let p: i128 = a * b;
    let q: i128 = tdiv128(p, FX_ONE as i128);
    q
}

/// Integer square root by bisection.
pub(crate) fn isqrt_u128(x: u128) -> (r: u128)
    ensures
        is_sqrt_floor(r as int, x as int),
{
    let mut lo: u128 = 0;
    let mut hi: u128 = 0x1_0000_0000_0000_0000;
    proof {
        assert((hi as int) * (hi as int) > x as int) by (nonlinear_arith)
            requires
                hi == 0x1_0000_0000_0000_0000u128,
                x <= u128::MAX,
        ;
    }
    while lo + 1 < hi
        invariant
            0 <= lo < hi <= 0x1_0000_0000_0000_0000,
            (lo as int) * (lo as int) <= x as int,
            (hi as int) * (hi as int) > x as int,
        decreases hi - lo,
    {
        let mid: u128 = lo + (hi - lo) / 2;
        proof {
            assert((mid as int) * (mid as int) <= u128::MAX as int) by (nonlinear_arith)
                requires
                    mid < 0x1_0000_0000_0000_0000u128,
            ;
        }
        if mid * mid <= x {
            lo = mid;
        } else {
            hi = mid;
        }
    }
    lo
}

/// The square root of a nonnegative fixed-point scalar.
pub fn fx_sqrt(x: i64) -> (r: i64)
    requires
        0 <= x,
    ensures
        r as int == fsqrt(x as int),
        0 <= r < 0x1_0000_0000_0000,
{
    let w: u128 = (x as u128) * 65536;
    let s: u128 = isqrt_u128(w);
    proof {
        lemma_sqrt_floor_unique(s as int, w as int);
        assert(s < 0x1_0000_0000_0000u128) by (nonlinear_arith)
            requires
                (s as int) * (s as int) <= w as int,
                (w as int) < 0x1_0000_0000_0000_0000_0000_0000,
        ;
    }
    s as i64
}

/// Clamp a scalar to a closed interval.
pub fn fx_clamp(x: i64, lo: i64, hi: i64) -> (r: i64)
    requires
        lo <= hi,
    ensures
        r as int == fclamp(x as int, lo as int, hi as int),
{
    if x < lo {
        lo
    } else if x > hi {
        hi
    } else {
        x
    }
}

} // verus!
