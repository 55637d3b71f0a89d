//! Resolving an accumulated pixel color to 8-bit output channels.

use vstd::prelude::*;
use vstd::arithmetic::div_mod::{lemma_div_nonincreasing, lemma_div_is_ordered, lemma_div_pos_is_pos};
use crate::fixed::{FX_ONE, tdiv, fsqrt, fclamp, fx_sqrt, fx_clamp};
use crate::vec3::Color;

verus! {

/// What one accumulated channel becomes on output: average over the
/// samples, gamma-correct for gamma 2 (square root), clamp just below
/// full scale, widen to `0..=255`.
pub open spec fn channel_out(c: int, samples: int) -> int {
    let avg = tdiv(c, samples);
    let g = fsqrt(avg);
    let cl = fclamp(g, 0, 65470);
    tdiv(cl * 256, FX_ONE as int)
}

/// The three 8-bit output channels for a pixel color accumulated over
/// `samples_per_pixel` samples.
pub fn write_color(color: &Color, samples_per_pixel: i32) -> (rgb: (u8, u8, u8))
    requires
        samples_per_pixel > 0,
        0 <= color.x,
        0 <= color.y,
        0 <= color.z,
    ensures
        rgb.0 as int == channel_out(color.x as int, samples_per_pixel as int),
        rgb.1 as int == channel_out(color.y as int, samples_per_pixel as int),
        rgb.2 as int == channel_out(color.z as int, samples_per_pixel as int),
{
    let ir = resolve_channel(color.x, samples_per_pixel);
    let ig = resolve_channel(color.y, samples_per_pixel);
    let ib = resolve_channel(color.z, samples_per_pixel);
    (ir, ig, ib)
}

fn resolve_channel(c: i64, samples: i32) -> (r: u8)
    requires
        samples > 0,
        0 <= c,
    ensures
        r as int == channel_out(c as int, samples as int),
{
    let avg: i64 = ((c as u64) / (samples as u64)) as i64;
    proof {
        lemma_div_nonincreasing(c as int, samples as int);
        lemma_div_pos_is_pos(c as int, samples as int);
        assert(avg as int == tdiv(c as int, samples as int));
    }
    let g = fx_sqrt(avg);
    let cl = fx_clamp(g, 0, 65470);
    let out: u64 = ((cl as u64) * 256) / 65536;
    proof {
        assert(out as int == tdiv((cl as int) * 256, 65536));
        lemma_div_is_ordered((cl as int) * 256, 16760320, 65536);
    }
    out as u8
}

} // verus!
