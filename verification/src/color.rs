//! Colors, gamma correction, and the output framebuffer.
//!
//! A color is a `Vec3` at the fixed-point scale [`crate::FP_ONE`]. The
//! output is 8-bit RGB: each linear channel is gamma-corrected by the
//! exact integer square root (`sqrt(c)` at the fixed-point scale),
//! clamped below one, and scaled to a byte — clamping happens before
//! scaling, so over-bright values saturate instead of wrapping.

use vstd::prelude::*;
use crate::frac::{isqrt_u128, sqrt_floor, is_sqrt_floor, lemma_sqrt_floor_unique,
    lemma_sqrt_floor_exists};
use crate::vec3::Vec3;
use crate::FP_ONE;

verus! {

/// Gamma correction of one fixed-point channel: the floor square root
/// at the fixed-point scale (so `FP_ONE` maps to `FP_ONE`); negative
/// input is treated as black.
pub open spec fn spec_gamma(c: int) -> int {
    if c <= 0 {
        0
    } else {
        sqrt_floor(c * FP_ONE as int)
    }
}

/// The output byte of one linear fixed-point channel: gamma, clamp
/// below one, scale to 8 bits.
pub open spec fn spec_channel_byte(c: int) -> int {
    let g = spec_gamma(c);
    let gc = if g > FP_ONE as int - 1 {
        FP_ONE as int - 1
    } else {
        g
    };
    gc / 256
}

/// Gamma correction of one channel, exactly `spec_gamma`.
pub fn gamma_channel(c: i64) -> (r: i64)
    requires
        c <= 0x7fff_ffff_ffff,
    ensures
        r as int == spec_gamma(c as int),
        0 <= r,
{
    if c <= 0 {
        return 0;
    }
    proof {
        assert((c as int) * (FP_ONE as int) <= 0x7fff_ffff_ffff_0000) by (nonlinear_arith)
            requires
                0 < c as int <= 0x7fff_ffff_ffff,
        ;
    }
    let x = (c as u128) * (FP_ONE as u128);
    let s = isqrt_u128(x);
    proof {
        lemma_sqrt_floor_unique(x as int, s as int);
        assert(s * s <= x);
        assert(s <= 0x8000_0000_0000u128) by (nonlinear_arith)
            requires
                s * s <= x,
                x <= 0x7fff_ffff_ffff_0000u128,
        ;
    }
    s as i64
}

/// Gamma correction of a color, componentwise.
pub fn linear_to_gamma(color: Vec3) -> (r: Vec3)
    requires
        color.x <= 0x7fff_ffff_ffff,
        color.y <= 0x7fff_ffff_ffff,
        color.z <= 0x7fff_ffff_ffff,
    ensures
        r.x as int == spec_gamma(color.x as int),
        r.y as int == spec_gamma(color.y as int),
        r.z as int == spec_gamma(color.z as int),
        0 <= r.x && 0 <= r.y && 0 <= r.z,
{
    Vec3 {
        x: gamma_channel(color.x),
        y: gamma_channel(color.y),
        z: gamma_channel(color.z),
    }
}

/// Gamma round trip: squaring the gamma-corrected channel recovers the
/// linear value to within the floor-rounding tolerance of the square
/// root, `2 * sqrt(c * FP_ONE)`.
pub proof fn lemma_gamma_round_trip(c: int)
    requires
        0 <= c,
    ensures
        spec_gamma(c) * spec_gamma(c) <= c * FP_ONE as int,
        c * FP_ONE as int - spec_gamma(c) * spec_gamma(c) <= 2 * spec_gamma(c),
{
    if c == 0 {
        assert(is_sqrt_floor(0, 0));
        lemma_sqrt_floor_unique(0, 0);
    } else {
        let x = c * FP_ONE as int;
        assert(x > 0) by (nonlinear_arith)
            requires
                c > 0,
                x == c * 65536,
        ;
        lemma_sqrt_floor_exists(x);
        let s = sqrt_floor(x);
        assert(x - s * s <= 2 * s) by (nonlinear_arith)
            requires
                s * s <= x,
                x < (s + 1) * (s + 1),
        ;
    }
}

/// The rendered image: 8-bit RGB pixels, row-major, top row first.
pub struct FrameBuffer {
    pub width: u32,
    pub height: u32,
    pub data: Vec<u8>,
}

/// Well-formedness of a framebuffer: bounded extent, three bytes per
/// pixel.
pub open spec fn fb_wf(fb: FrameBuffer) -> bool {
    &&& 0 < fb.width <= 0x4000
    &&& 0 < fb.height <= 0x4000
    &&& fb.data.len() == 3 * fb.width * fb.height
}

impl FrameBuffer {
    /// A black framebuffer of the given extent.
    pub fn new(width: u32, height: u32) -> (fb: FrameBuffer)
        requires
            0 < width <= 0x4000,
            0 < height <= 0x4000,
        ensures
            fb_wf(fb),
            fb.width == width,
            fb.height == height,
            forall|i: int| 0 <= i < fb.data@.len() ==> fb.data@[i] == 0u8,
    {
        proof {
            assert(3 * (width as int) * (height as int) <= 3 * (0x4000 * 0x4000)
                && (width as int) * (height as int) <= 0x4000 * 0x4000) by (nonlinear_arith)
                requires
                    0 < width as int <= 0x4000,
                    0 < height as int <= 0x4000,
            ;
        }
        let n = 3 * (width as usize) * (height as usize);
        let mut data: Vec<u8> = Vec::new();
        let mut i: usize = 0;
        while i < n
            invariant
                data.len() == i,
                i <= n,
                forall|k: int| 0 <= k < data@.len() ==> data@[k] == 0u8,
            decreases n - i,
        {
            data.push(0);
            i += 1;
        }
        proof {
            assert(3 * (width as int) * (height as int) == 3 * ((width as int) * (
            height as int))) by (nonlinear_arith);
        }
        FrameBuffer { width, height, data }
    }
}

/// Writes one pixel: gamma-corrects the color, clamps each channel
/// below one, and stores the three bytes of pixel `(i, j)`.
pub fn write_color(i: u32, j: u32, buf: &mut FrameBuffer, color: Vec3)
    requires
        fb_wf(*old(buf)),
        i < old(buf).width,
        j < old(buf).height,
        color.x <= 0x7fff_ffff_ffff,
        color.y <= 0x7fff_ffff_ffff,
        color.z <= 0x7fff_ffff_ffff,
    ensures
        fb_wf(*final(buf)),
        final(buf).width == old(buf).width,
        final(buf).height == old(buf).height,
        ({
            let idx = 3 * (j * old(buf).width + i);
            &&& final(buf).data@ == old(buf).data@.update(
                idx as int,
                spec_channel_byte(color.x as int) as u8,
            ).update(idx + 1, spec_channel_byte(color.y as int) as u8).update(
                idx + 2,
                spec_channel_byte(color.z as int) as u8,
            )
        }),
{
    let g = linear_to_gamma(color);
    let bx = channel_byte(g.x);
    let by = channel_byte(g.y);
    let bz = channel_byte(g.z);
    proof {
        let w = buf.width as int;
        let h = buf.height as int;
        let jj = j as int;
        let ii = i as int;
        assert(jj * w + ii < w * h && 3 * (jj * w + ii) + 2 < 3 * (w * h) && jj * w <= 0x4000
            * 0x4000 && 3 * w * h == 3 * (w * h)) by (nonlinear_arith)
            requires
                0 <= ii < w,
                0 <= jj < h,
                0 < w <= 0x4000,
                0 < h <= 0x4000,
        ;
    }
    let idx = 3 * ((j as usize) * (buf.width as usize) + (i as usize));
    buf.data[idx] = bx;
    buf.data[idx + 1] = by;
    buf.data[idx + 2] = bz;
}

/// The byte of one gamma-corrected channel: clamp below one, scale.
fn channel_byte(g: i64) -> (b: u8)
    requires
        0 <= g,
    ensures
        b as int == ({
            let gc = if g as int > FP_ONE as int - 1 {
                FP_ONE as int - 1
            } else {
                g as int
            };
            gc / 256
        }),
{
    let gc = if g > FP_ONE - 1 {
        FP_ONE - 1
    } else {
        g
    };
    (gc / 256) as u8
}

} // verus!
