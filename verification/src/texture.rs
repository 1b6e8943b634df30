//! Textures: solid colors, a world-space checker, and image samplers.
//!
//! Colors are integer vectors at the fixed-point scale [`crate::FP_ONE`]
//! (so `FP_ONE` is white). Surface coordinates are fixed-point values in
//! `[0, FP_ONE]`. The checker is evaluated in world space from the exact
//! rational hit point; all sampling arithmetic is exact floor division.

use vstd::prelude::*;
use crate::frac::floor_div_i128;
use crate::vec3::{Vec3, RatVec3, RatV3, rv_ok, RATV_MAX};
use crate::frac::{lemma_mul_bound, FRAC_MAX};
use crate::FP_ONE;

verus! {

/// A checkered texture: world-space parity of the scaled coordinates
/// selects the even or the odd child.
pub struct CheckerTexture {
    pub scale: i64,
    pub even: Texture,
    pub odd: Texture,
}

/// Decoded RGB24 pixels of an image, row-major, top row first.
pub struct ImageData {
    pub width: u32,
    pub height: u32,
    pub pixels: Vec<u8>,
}

/// A texture: a solid color, a checker, or an image (possibly missing,
/// in which case sampling yields the diagnostic magenta).
pub enum Texture {
    SolidColor(Vec3),
    CheckerTexture(Box<CheckerTexture>),
    ImageTexture(Option<ImageData>),
}

/// Well-formedness of image data: positive extent, one RGB triple per
/// pixel, and extents small enough for exact index arithmetic.
pub open spec fn img_wf(img: ImageData) -> bool {
    &&& 0 < img.width <= 0x1000
    &&& 0 < img.height <= 0x1000
    &&& img.pixels.len() == 3 * img.width * img.height
}

/// Well-formedness of a texture: bounded checker scale, well-formed
/// children and image data.
pub open spec fn tex_wf(t: Texture) -> bool
    decreases t,
{
    match t {
        Texture::SolidColor(c) => 0 <= c.x <= FP_ONE && 0 <= c.y <= FP_ONE && 0 <= c.z
            <= FP_ONE,
        Texture::CheckerTexture(c) => 0 < c.scale <= 0x4000_0000 && tex_wf(c.even) && tex_wf(
            c.odd,
        ),
        Texture::ImageTexture(img) => match img {
            Some(i) => img_wf(i),
            None => true,
        },
    }
}

/// The world-space checker parity: floor the scaled coordinates of the
/// hit point and test whether their sum is even.
pub open spec fn spec_checker_even(scale: int, p: RatV3) -> bool {
    let xi = (scale * p.x.n) / (FP_ONE as int * p.x.d);
    let yi = (scale * p.y.n) / (FP_ONE as int * p.y.d);
    let zi = (scale * p.z.n) / (FP_ONE as int * p.z.d);
    (xi + yi + zi) % 2 == 0
}

/// Clamps a fixed-point coordinate into `[0, FP_ONE]`.
pub open spec fn spec_clamp01(u: int) -> int {
    if u < 0 {
        0
    } else if u > FP_ONE as int {
        FP_ONE as int
    } else {
        u
    }
}

/// The pixel column sampled for a fixed-point coordinate in `[0, FP_ONE]`.
pub open spec fn spec_sample_index(u: int, extent: int) -> int {
    let i = (u * extent) / (FP_ONE as int);
    if i >= extent {
        extent - 1
    } else {
        i
    }
}

/// One image byte scaled to a fixed-point color channel.
pub open spec fn spec_byte_color(b: int) -> int {
    (b * FP_ONE as int) / 255
}

/// What a texture yields at surface coordinates `(u, v)` and world-space
/// point `p`: the color of the selected solid, checker child, or image
/// pixel, with `(u, 1 - v)` clamped image addressing and magenta for a
/// missing image.
pub open spec fn spec_value(t: Texture, u: int, v: int, p: RatV3) -> Vec3
    decreases t,
{
    match t {
        Texture::SolidColor(c) => c,
        Texture::CheckerTexture(c) => if spec_checker_even(c.scale as int, p) {
            spec_value(c.even, u, v, p)
        } else {
            spec_value(c.odd, u, v, p)
        },
        Texture::ImageTexture(img) => match img {
            None => Vec3 { x: FP_ONE, y: 0i64, z: FP_ONE },
            Some(i) => {
                let uu = spec_clamp01(u);
                let vv = FP_ONE as int - spec_clamp01(v);
                let x = spec_sample_index(uu, i.width as int);
                let y = spec_sample_index(vv, i.height as int);
                let idx = 3 * (y * i.width as int + x);
                Vec3 {
                    x: spec_byte_color(i.pixels[idx] as int) as i64,
                    y: spec_byte_color(i.pixels[idx + 1] as int) as i64,
                    z: spec_byte_color(i.pixels[idx + 2] as int) as i64,
                }
            },
        },
    }
}

impl Texture {
    /// A solid color.
    pub fn new_solid(col: Vec3) -> (r: Texture)
        requires
            0 <= col.x <= FP_ONE,
            0 <= col.y <= FP_ONE,
            0 <= col.z <= FP_ONE,
        ensures
            r == Texture::SolidColor(col),
            tex_wf(r),
    {
        Texture::SolidColor(col)
    }

    /// A solid color from fixed-point channels.
    pub fn new_solid_rgb(r: i64, g: i64, b: i64) -> (t: Texture)
        requires
            0 <= r <= FP_ONE,
            0 <= g <= FP_ONE,
            0 <= b <= FP_ONE,
        ensures
            t == Texture::SolidColor(Vec3 { x: r, y: g, z: b }),
            tex_wf(t),
    {
        Texture::SolidColor(Vec3 { x: r, y: g, z: b })
    }

    /// A world-space checker of the two child textures.
    pub fn new_checkered(scale: i64, even: Texture, odd: Texture) -> (t: Texture)
        requires
            0 < scale <= 0x4000_0000,
            tex_wf(even),
            tex_wf(odd),
        ensures
            t == Texture::CheckerTexture(Box::new(CheckerTexture { scale, even, odd })),
            tex_wf(t),
    {
        Texture::CheckerTexture(Box::new(CheckerTexture { scale, even, odd }))
    }

    /// An image texture from decoded RGB24 pixels; `None` yields the
    /// diagnostic magenta when sampled.
    pub fn new_image(img: Option<ImageData>) -> (t: Texture)
        requires
            match img {
                Some(i) => img_wf(i),
                None => true,
            },
        ensures
            tex_wf(t),
            t == Texture::ImageTexture(img),
    {
        Texture::ImageTexture(img)
    }

    /// Samples the texture at `(u, v)` and world point `p`.
    pub fn value(&self, u: i64, v: i64, p: &RatVec3) -> (r: Vec3)
        requires
            tex_wf(*self),
            rv_ok(*p),
        ensures
            r == spec_value(*self, u as int, v as int, p@),
        decreases *self,
    {
        match self {
            Texture::SolidColor(c) => *c,
            Texture::CheckerTexture(c) => {
                proof {
                    lemma_mul_bound(c.scale as int, p.nx as int, 0x4000_0000, RATV_MAX as int);
                    lemma_mul_bound(c.scale as int, p.ny as int, 0x4000_0000, RATV_MAX as int);
                    lemma_mul_bound(c.scale as int, p.nz as int, 0x4000_0000, RATV_MAX as int);
                    lemma_mul_bound(FP_ONE as int, p.d as int, 0x1_0000, FRAC_MAX as int);
                }
                let fx = floor_div_i128((c.scale as i128) * p.nx, (FP_ONE as i128) * p.d);
                let fy = floor_div_i128((c.scale as i128) * p.ny, (FP_ONE as i128) * p.d);
                let fz = floor_div_i128((c.scale as i128) * p.nz, (FP_ONE as i128) * p.d);
                let s = fx + fy + fz;
                let is_even = s % 2 == 0;
                if is_even {
                    c.even.value(u, v, p)
                } else {
                    c.odd.value(u, v, p)
                }
            },
            Texture::ImageTexture(img) => {
                match img {
                    None => Vec3 { x: FP_ONE, y: 0, z: FP_ONE },
                    Some(i) => {
                        proof {
                            assert(img_wf(*i));
                        }
                        let uu = if u < 0 {
                            0
                        } else if u > FP_ONE {
                            FP_ONE
                        } else {
                            u
                        };
                        let vc = if v < 0 {
                            0
                        } else if v > FP_ONE {
                            FP_ONE
                        } else {
                            v
                        };
                        let vv = FP_ONE - vc;
                        proof {
                            lemma_mul_bound(uu as int, i.width as int, 0x1_0000, 0x1000);
                            lemma_mul_bound(vv as int, i.height as int, 0x1_0000, 0x1000);
                        }
                        let x64 = uu as u64 * i.width as u64 / FP_ONE as u64;
                        let y64 = vv as u64 * i.height as u64 / FP_ONE as u64;
                        proof {
                            assert(x64 <= i.width && y64 <= i.height) by (nonlinear_arith)
                                requires
                                    0 <= uu as u64 <= 65536,
                                    0 <= vv as u64 <= 65536,
                                    x64 == uu as u64 * i.width as u64 / 65536,
                                    y64 == vv as u64 * i.height as u64 / 65536,
                                    i.width <= 0x1000,
                                    i.height <= 0x1000,
                            ;
                        }
                        let mut x = x64 as usize;
                        let mut y = y64 as usize;
                        if x >= i.width as usize {
                            x = i.width as usize - 1;
                        }
                        if y >= i.height as usize {
                            y = i.height as usize - 1;
                        }
                        proof {
                            lemma_mul_bound(y as int, i.width as int, 0x1000, 0x1000);
                            assert(3 * (y * i.width as int + x) + 2 < i.pixels.len())
                                by (nonlinear_arith)
                                requires
                                    0 <= x,
                                    x < i.width as int,
                                    0 <= y,
                                    y < i.height as int,
                                    0 < i.width,
                                    0 < i.height,
                                    i.pixels.len() == 3 * i.width * i.height,
                            ;
                        }
                        let idx = 3 * (y * i.width as usize + x);
                        let r = i.pixels[idx] as u64 * FP_ONE as u64 / 255;
                        let g = i.pixels[idx + 1] as u64 * FP_ONE as u64 / 255;
                        let b = i.pixels[idx + 2] as u64 * FP_ONE as u64 / 255;
                        Vec3 { x: r as i64, y: g as i64, z: b as i64 }
                    },
                }
            },
        }
    }
}

/// Value equality of textures: structural, with image pixels compared
/// bytewise (two buffers holding the same bytes stand for the same
/// texture, whatever their allocations).
pub open spec fn tex_like(a: Texture, b: Texture) -> bool
    decreases a,
{
    match (a, b) {
        (Texture::SolidColor(x), Texture::SolidColor(y)) => x == y,
        (Texture::CheckerTexture(ca), Texture::CheckerTexture(cb)) => ca.scale == cb.scale
            && tex_like(ca.even, cb.even) && tex_like(ca.odd, cb.odd),
        (Texture::ImageTexture(ia), Texture::ImageTexture(ib)) => match (ia, ib) {
            (Some(x), Some(y)) => x.width == y.width && x.height == y.height && x.pixels@
                == y.pixels@,
            (None, None) => true,
            _ => false,
        },
        _ => false,
    }
}

/// Equal-valued textures are sampled alike, everywhere.
pub proof fn lemma_tex_like_value(a: Texture, b: Texture, u: int, v: int, p: RatV3)
    requires
        tex_like(a, b),
    ensures
        spec_value(a, u, v, p) == spec_value(b, u, v, p),
        tex_wf(a) == tex_wf(b),
    decreases a,
{
    match (a, b) {
        (Texture::CheckerTexture(ca), Texture::CheckerTexture(cb)) => {
            lemma_tex_like_value(ca.even, cb.even, u, v, p);
            lemma_tex_like_value(ca.odd, cb.odd, u, v, p);
        },
        _ => {},
    }
}

/// A deep copy of image data: same extent, same bytes.
pub fn clone_image(img: &ImageData) -> (r: ImageData)
    ensures
        r.width == img.width,
        r.height == img.height,
        r.pixels@ == img.pixels@,
        img_wf(*img) ==> img_wf(r),
{
    let pixels = img.pixels.clone();
    proof {
        assert forall|i: int| 0 <= i < img.pixels@.len() implies pixels@[i] == img.pixels@[i] by {
            assert(vstd::pervasive::cloned::<u8>(img.pixels[i], pixels[i]));
        }
        assert(pixels@ =~= img.pixels@);
    }
    ImageData { width: img.width, height: img.height, pixels }
}

/// A deep copy of a texture: equal in value to the source (image bytes
/// compared bytewise), hence sampled alike and equally well-formed.
pub fn clone_texture(t: &Texture) -> (r: Texture)
    ensures
        tex_like(r, *t),
        tex_wf(*t) ==> tex_wf(r),
    decreases *t,
{
    match t {
        Texture::SolidColor(c) => Texture::SolidColor(*c),
        Texture::CheckerTexture(c) => Texture::CheckerTexture(
            Box::new(
                CheckerTexture {
                    scale: c.scale,
                    even: clone_texture(&c.even),
                    odd: clone_texture(&c.odd),
                },
            ),
        ),
        Texture::ImageTexture(img) => Texture::ImageTexture(
            match img {
                Some(i) => Some(clone_image(i)),
                None => None,
            },
        ),
    }
}

/// A well-formed texture yields colors in `[0, FP_ONE]` componentwise.
pub proof fn lemma_tex_value_bounded(t: Texture, u: int, v: int, p: RatV3)
    requires
        tex_wf(t),
    ensures
        0 <= spec_value(t, u, v, p).x <= FP_ONE,
        0 <= spec_value(t, u, v, p).y <= FP_ONE,
        0 <= spec_value(t, u, v, p).z <= FP_ONE,
    decreases t,
{
    match t {
        Texture::SolidColor(_) => {},
        Texture::CheckerTexture(c) => {
            lemma_tex_value_bounded(c.even, u, v, p);
            lemma_tex_value_bounded(c.odd, u, v, p);
        },
        Texture::ImageTexture(img) => {
            match img {
                None => {},
                Some(i) => {
                    let uu = spec_clamp01(u);
                    let vv = FP_ONE as int - spec_clamp01(v);
                    let x = spec_sample_index(uu, i.width as int);
                    let y = spec_sample_index(vv, i.height as int);
                    let idx = 3 * (y * i.width as int + x);
                    assert(0 <= spec_byte_color(i.pixels[idx] as int) <= FP_ONE)
                        by (nonlinear_arith)
                        requires
                            0 <= i.pixels[idx] as int <= 255,
                    ;
                    assert(0 <= spec_byte_color(i.pixels[idx + 1] as int) <= FP_ONE)
                        by (nonlinear_arith)
                        requires
                            0 <= i.pixels[idx + 1] as int <= 255,
                    ;
                    assert(0 <= spec_byte_color(i.pixels[idx + 2] as int) <= FP_ONE)
                        by (nonlinear_arith)
                        requires
                            0 <= i.pixels[idx + 2] as int <= 255,
                    ;
                },
            }
        },
    }
}

} // verus!
