//! The camera and the integrator.
//!
//! The camera derives, from its configuration, an orthonormal-scaled
//! basis, per-pixel step vectors and the upper-left pixel anchor, all
//! in fixed point at scale [`crate::FP_ONE`] over world coordinates.
//! `get_ray` jitters a sample inside the pixel and rounds the direction
//! to integer world units (the caller chooses world units fine enough
//! for sub-pixel resolution). `ray_color` is the recursive integrator:
//! black at the bounce budget, the sky blend on a miss, and otherwise
//! the scattered color attenuated componentwise. The render loop walks
//! the pixel rectangle sequentially, accumulating samples.

use vstd::prelude::*;
use crate::frac::{Frac, floor_div_i128, lemma_mul_bound, FRAC_MAX};
use crate::vec3::{Vec3, vec_in, unit_scaled, spec_unit_scaled};
use crate::interval::RaySpan;
use crate::ray::{Ray, ray_ok};
use crate::bvh::{BvhNode, node_wf, node_hit_t};
use crate::material::Material;
use crate::color::{FrameBuffer, fb_wf, write_color};
use crate::rng::{rng_range_i64};
use crate::{FP_ONE, COORD_MAX, ORIGIN_MAX};
use rand::rngs::ThreadRng;

verus! {

/// The largest color channel the integrator can produce: the strongest
/// emitter (`FP_ONE * 256`).
pub const COLOR_MAX: i64 = 16777216;

/// The sky gradient: a vertical blend between white at the horizon and
/// light blue at the zenith, from the unit-scaled ray direction.
pub open spec fn spec_sky(unit_y: int) -> Vec3 {
    let a = (unit_y + FP_ONE as int) / 2;
    Vec3 {
        x: (((FP_ONE as int - a) * (FP_ONE as int) + a * 32768) / (FP_ONE as int)) as i64,
        y: (((FP_ONE as int - a) * (FP_ONE as int) + a * 45875) / (FP_ONE as int)) as i64,
        z: FP_ONE,
    }
}

/// The sky color for a ray, exactly `spec_sky` of the unit direction.
pub fn sky_color(r: &Ray) -> (c: Vec3)
    requires
        ray_ok(*r),
    ensures
        c == spec_sky(spec_unit_scaled(r.dir).y as int),
        0 <= c.x <= FP_ONE,
        0 <= c.y <= FP_ONE,
        0 <= c.z <= FP_ONE,
{
    let unit = unit_scaled(&r.dir);
    let a = ((unit.y as i128) + (FP_ONE as i128)) / 2;
    proof {
        assert(0 <= ((unit.y as int) + 65536) / 2 <= 65536);
        lemma_mul_bound((65536 - a) as int, 65536, 65536, 65536);
        lemma_mul_bound(a as int, 32768, 65536, 32768);
        lemma_mul_bound(a as int, 45875, 65536, 45875);
        lemma_sky_channel_bounds(a as int);
    }
    let x = (((FP_ONE as i128 - a) * (FP_ONE as i128) + a * 32768) / (FP_ONE as i128)) as i64;
    let y = (((FP_ONE as i128 - a) * (FP_ONE as i128) + a * 45875) / (FP_ONE as i128)) as i64;
    Vec3 { x, y, z: FP_ONE }
}

/// A convex blend of two channels in `[0, FP_ONE]` stays in range.
proof fn lemma_sky_channel_bounds(a: int)
    requires
        0 <= a <= 65536,
    ensures
        0 <= ((65536 - a) * 65536 + a * 32768) / 65536 <= 65536,
        0 <= ((65536 - a) * 65536 + a * 45875) / 65536 <= 65536,
{
    assert(0 <= (65536 - a) * 65536 + a * 32768 <= 65536 * 65536 && 0 <= (65536 - a) * 65536 + a
        * 45875 <= 65536 * 65536) by (nonlinear_arith)
        requires
            0 <= a <= 65536,
    ;
}

/// All three channels lie in the integrator's range.
pub open spec fn color_in_range(c: Vec3) -> bool {
    0 <= c.x <= COLOR_MAX && 0 <= c.y <= COLOR_MAX && 0 <= c.z <= COLOR_MAX
}

/// The recursive integrator: black once the bounce budget is spent;
/// the sky blend on a miss (exactly, when no primitive reports a hit);
/// otherwise the scattered ray's color attenuated componentwise, or
/// the attenuation alone (emitted light or absorption) when the path
/// ends. Every channel stays within `[0, COLOR_MAX]`.
pub fn ray_color(r: &Ray, depth: u32, world: &BvhNode, rng: &mut ThreadRng) -> (c: Vec3)
    requires
        node_wf(*world),
        ray_ok(*r),
    ensures
        0 <= c.x <= COLOR_MAX,
        0 <= c.y <= COLOR_MAX,
        0 <= c.z <= COLOR_MAX,
        depth == 0 ==> c == (Vec3 { x: 0i64, y: 0i64, z: 0i64 }),
        depth > 0 && node_hit_t(
            *world,
            *r,
            crate::frac::Rat { n: 1, d: 1000 },
            crate::frac::Rat { n: FRAC_MAX as int, d: 1 },
        ) is None ==> c == spec_sky(spec_unit_scaled(r.dir).y as int),
        depth > 0 && node_hit_t(
            *world,
            *r,
            crate::frac::Rat { n: 1, d: 1000 },
            crate::frac::Rat { n: FRAC_MAX as int, d: 1 },
        ) is Some ==> exists|
            pt: crate::vec3::RatVec3,
            nrm: crate::vec3::RatVec3,
            ff: bool,
            u: int,
            v: int,
            m: Material,
            out: (Vec3, Option<Ray>),
            rest: Vec3,
        |
            {
                &&& #[trigger] crate::material::scatter_admits(m, *r, pt, nrm, ff, u, v, out)
                &&& #[trigger] color_in_range(rest)
                &&& crate::bvh::node_has_mat(*world, m)
                &&& crate::material::mat_wf(m)
                &&& pt@.x == crate::ray::spec_at_axis(
                    r.orig.x as int,
                    r.dir.x as int,
                    node_hit_t(
                        *world,
                        *r,
                        crate::frac::Rat { n: 1, d: 1000 },
                        crate::frac::Rat { n: FRAC_MAX as int, d: 1 },
                    ).unwrap(),
                )
                &&& pt@.y == crate::ray::spec_at_axis(
                    r.orig.y as int,
                    r.dir.y as int,
                    node_hit_t(
                        *world,
                        *r,
                        crate::frac::Rat { n: 1, d: 1000 },
                        crate::frac::Rat { n: FRAC_MAX as int, d: 1 },
                    ).unwrap(),
                )
                &&& pt@.z == crate::ray::spec_at_axis(
                    r.orig.z as int,
                    r.dir.z as int,
                    node_hit_t(
                        *world,
                        *r,
                        crate::frac::Rat { n: 1, d: 1000 },
                        crate::frac::Rat { n: FRAC_MAX as int, d: 1 },
                    ).unwrap(),
                )
                &&& match out.1 {
                    None => c == spec_clamp_color(out.0),
                    Some(sr) => {
                        &&& admissible_color(*world, (depth - 1) as u32, sr, rest)
                        &&& c.x as int == (out.0.x as int) * (rest.x as int) / (FP_ONE as int)
                        &&& c.y as int == (out.0.y as int) * (rest.y as int) / (FP_ONE as int)
                        &&& c.z as int == (out.0.z as int) * (rest.z as int) / (FP_ONE as int)
                    },
                }
            },
    decreases depth,
{
    if depth == 0 {
        return Vec3 { x: 0, y: 0, z: 0 };
    }
    let span = RaySpan { min: Frac::new(1, 1000), max: Frac::new(FRAC_MAX, 1) };
    let hit = world.hit(r, &span);
    match hit {
        None => sky_color(r),
        Some(h) => {
            match h.material {
                None => Vec3 { x: 0, y: 0, z: 0 },
                Some(m) => {
                    let (attenuation, scattered) = m.scatter(r, &h, rng);
                    proof {
                        if m is Lambertian {
                            crate::texture::lemma_tex_value_bounded(
                                m->Lambertian_0,
                                h.u as int,
                                h.v as int,
                                h.p@,
                            );
                        }
                    }
                    match scattered {
                        Some(sr) => {
                            let rest = ray_color(&sr, depth - 1, world, rng);
                            proof {
                                assert(crate::material::scatter_admits(
                                    *m,
                                    *r,
                                    h.p,
                                    h.normal,
                                    h.front_face,
                                    h.u as int,
                                    h.v as int,
                                    (attenuation, scattered),
                                ));
                                assert(color_in_range(rest));
                                lemma_mul_bound(
                                    attenuation.x as int,
                                    rest.x as int,
                                    FP_ONE as int,
                                    COLOR_MAX as int,
                                );
                                lemma_mul_bound(
                                    attenuation.y as int,
                                    rest.y as int,
                                    FP_ONE as int,
                                    COLOR_MAX as int,
                                );
                                lemma_mul_bound(
                                    attenuation.z as int,
                                    rest.z as int,
                                    FP_ONE as int,
                                    COLOR_MAX as int,
                                );
                                lemma_attenuate_bounds(attenuation.x as int, rest.x as int);
                                lemma_attenuate_bounds(attenuation.y as int, rest.y as int);
                                lemma_attenuate_bounds(attenuation.z as int, rest.z as int);
                            }
                            Vec3 {
                                x: (((attenuation.x as i128) * (rest.x as i128)) / (
                                FP_ONE as i128)) as i64,
                                y: (((attenuation.y as i128) * (rest.y as i128)) / (
                                FP_ONE as i128)) as i64,
                                z: (((attenuation.z as i128) * (rest.z as i128)) / (
                                FP_ONE as i128)) as i64,
                            }
                        },
                        None => {
                            proof {
                                assert(crate::material::scatter_admits(
                                    *m,
                                    *r,
                                    h.p,
                                    h.normal,
                                    h.front_face,
                                    h.u as int,
                                    h.v as int,
                                    (attenuation, scattered),
                                ));
                                assert(color_in_range(Vec3 { x: 0i64, y: 0i64, z: 0i64 }));
                            }
                            clamp_color(attenuation)
                        },
                    }
                },
            }
        },
    }
}

/// Attenuating a bounded color by a factor in `[0, FP_ONE]` keeps it
/// bounded.
proof fn lemma_attenuate_bounds(a: int, c: int)
    requires
        0 <= a <= 65536,
        0 <= c <= 16777216,
    ensures
        0 <= a * c / 65536 <= 16777216,
{
    assert(0 <= a * c && a * c <= 65536 * 16777216) by (nonlinear_arith)
        requires
            0 <= a <= 65536,
            0 <= c <= 16777216,
    ;
}

/// An attenuation or emission clamped into the integrator's range.
pub open spec fn spec_clamp_color(c: Vec3) -> Vec3 {
    Vec3 {
        x: if c.x < 0 {
            0i64
        } else if c.x > COLOR_MAX {
            COLOR_MAX
        } else {
            c.x
        },
        y: if c.y < 0 {
            0i64
        } else if c.y > COLOR_MAX {
            COLOR_MAX
        } else {
            c.y
        },
        z: if c.z < 0 {
            0i64
        } else if c.z > COLOR_MAX {
            COLOR_MAX
        } else {
            c.z
        },
    }
}

/// Clamps an attenuation or emission into the integrator's color range.
fn clamp_color(c: Vec3) -> (r: Vec3)
    ensures
        r == spec_clamp_color(c),
        0 <= r.x <= COLOR_MAX,
        0 <= r.y <= COLOR_MAX,
        0 <= r.z <= COLOR_MAX,
{
    Vec3 {
        x: if c.x < 0 {
            0
        } else if c.x > COLOR_MAX {
            COLOR_MAX
        } else {
            c.x
        },
        y: if c.y < 0 {
            0
        } else if c.y > COLOR_MAX {
            COLOR_MAX
        } else {
            c.y
        },
        z: if c.z < 0 {
            0
        } else if c.z > COLOR_MAX {
            COLOR_MAX
        } else {
            c.z
        },
    }
}

/// The eye-to-target vector of a camera configuration.
pub open spec fn spec_cam_diff(c: Camera) -> Vec3 {
    Vec3 {
        x: (c.lookfrom.x - c.lookat.x) as i64,
        y: (c.lookfrom.y - c.lookat.y) as i64,
        z: (c.lookfrom.z - c.lookat.z) as i64,
    }
}

/// The focal length: the floor square root of the squared eye-to-target
/// distance.
pub open spec fn spec_cam_focal(c: Camera) -> int {
    crate::frac::sqrt_floor(crate::vec3::spec_norm_sq(spec_cam_diff(c)))
}

/// The unit-scale view axis `w = unit(lookfrom - lookat)`.
pub open spec fn spec_cam_w(c: Camera) -> Vec3 {
    spec_unit_scaled(spec_cam_diff(c))
}

/// The unit-scale right axis `u = unit(vup x w)`.
pub open spec fn spec_cam_u(c: Camera) -> Vec3 {
    spec_unit_scaled(
        Vec3 {
            x: crate::vec3::spec_cross_x(c.vup, spec_cam_w(c)) as i64,
            y: crate::vec3::spec_cross_y(c.vup, spec_cam_w(c)) as i64,
            z: crate::vec3::spec_cross_z(c.vup, spec_cam_w(c)) as i64,
        },
    )
}

/// The unit-scale down axis `v = (w x u) / FP_ONE`.
pub open spec fn spec_cam_v(c: Camera) -> Vec3 {
    Vec3 {
        x: (crate::vec3::spec_cross_x(spec_cam_w(c), spec_cam_u(c)) / (FP_ONE as int)) as i64,
        y: (crate::vec3::spec_cross_y(spec_cam_w(c), spec_cam_u(c)) / (FP_ONE as int)) as i64,
        z: (crate::vec3::spec_cross_z(spec_cam_w(c), spec_cam_u(c)) / (FP_ONE as int)) as i64,
    }
}

/// The fixed-point viewport height `2 * tan(fov/2) * focal`.
pub open spec fn spec_cam_vh(c: Camera) -> int {
    2 * (c.fov_tan as int) * spec_cam_focal(c)
}

/// The fixed-point viewport width, from the image aspect.
pub open spec fn spec_cam_vw(c: Camera) -> int {
    spec_cam_vh(c) * (c.image_width as int) / (c.image_height as int)
}

/// One component of a viewport edge: the extent times a unit-scale
/// component, landed at fixed point and clamped into the edge budget.
pub open spec fn spec_edge(extent: int, unit_comp: int) -> int {
    crate::vec3::spec_clamp_mag(extent * unit_comp / (FP_ONE as int), 0x2000_0000_0000)
}

/// One component of a per-pixel step: an edge component divided by the
/// pixel count, clamped into the step budget.
pub open spec fn spec_step(edge: int, pixels: int) -> int {
    crate::vec3::spec_clamp_mag(edge / pixels, 0x4000_0000_0000)
}

/// One component of the upper-left pixel anchor: the eye at fixed
/// point, back along the view axis by the focal length, to the corner
/// of the viewport, plus half a pixel step; clamped into its budget.
pub open spec fn spec_anchor(
    center: int,
    focal: int,
    wc: int,
    vu: int,
    vv: int,
    du: int,
    dv: int,
) -> int {
    crate::vec3::spec_clamp_mag(
        center * (FP_ONE as int) - focal * wc - vu / 2 - vv / 2 + du / 2 + dv / 2,
        0x8000_0000_0000,
    )
}

/// One direction component of a camera ray: the anchor advanced by the
/// pixel indices and the sub-pixel jitter, taken relative to the eye
/// and rounded to integer world units, clamped into the ray budget.
pub open spec fn spec_sample_dir_axis(
    p00: int,
    du: int,
    dv: int,
    center: int,
    i: int,
    j: int,
    jx: int,
    jy: int,
) -> int {
    let sample = p00 + i * du + j * dv + (jx - 32768) * du / (FP_ONE as int) + (jy - 32768) * dv
        / (FP_ONE as int);
    crate::vec3::spec_clamp_mag(
        (sample - center * (FP_ONE as int)) / (FP_ONE as int),
        COORD_MAX as int,
    )
}

/// The ray-generation geometry of a camera: the fields `get_ray`
/// reads, separated from the framebuffer so statements about pixels
/// survive framebuffer writes.
pub ghost struct CamGeom {
    pub center: Vec3,
    pub p00_x: int,
    pub p00_y: int,
    pub p00_z: int,
    pub du_x: int,
    pub du_y: int,
    pub du_z: int,
    pub dv_x: int,
    pub dv_y: int,
    pub dv_z: int,
    pub samples_per_pixel: int,
    pub max_bounces: u32,
}

/// The ray-generation geometry of a camera value.
pub open spec fn cam_geom(c: Camera) -> CamGeom {
    CamGeom {
        center: c.center,
        p00_x: c.p00_x as int,
        p00_y: c.p00_y as int,
        p00_z: c.p00_z as int,
        du_x: c.du_x as int,
        du_y: c.du_y as int,
        du_z: c.du_z as int,
        dv_x: c.dv_x as int,
        dv_y: c.dv_y as int,
        dv_z: c.dv_z as int,
        samples_per_pixel: c.samples_per_pixel as int,
        max_bounces: c.max_bounces,
    }
}

/// A ray the generator can produce for pixel `(i, j)`: from the eye,
/// its direction the rounded, clamped sample offset for some sub-pixel
/// jitter draw.
pub open spec fn admissible_ray(g: CamGeom, i: int, j: int, r: Ray) -> bool {
    &&& r.orig == g.center
    &&& ray_ok(r)
    &&& exists|jx: int, jy: int|
        0 <= jx < FP_ONE as int && 0 <= jy < FP_ONE as int && r.dir.x as int
            == #[trigger] spec_sample_dir_axis(
            g.p00_x,
            g.du_x,
            g.dv_x,
            g.center.x as int,
            i,
            j,
            jx,
            jy,
        ) && r.dir.y as int == spec_sample_dir_axis(
            g.p00_y,
            g.du_y,
            g.dv_y,
            g.center.y as int,
            i,
            j,
            jx,
            jy,
        ) && r.dir.z as int == spec_sample_dir_axis(
            g.p00_z,
            g.du_z,
            g.dv_z,
            g.center.z as int,
            i,
            j,
            jx,
            jy,
        )
}

/// A color the integrator can report for a ray: channels bounded,
/// black at a spent bounce budget, and exactly the sky blend when the
/// ray misses the scene.
pub open spec fn admissible_color(world: BvhNode, depth: u32, r: Ray, c: Vec3) -> bool {
    &&& 0 <= c.x <= COLOR_MAX
    &&& 0 <= c.y <= COLOR_MAX
    &&& 0 <= c.z <= COLOR_MAX
    &&& (depth == 0 ==> c == (Vec3 { x: 0i64, y: 0i64, z: 0i64 }))
    &&& (depth > 0 && node_hit_t(
        world,
        r,
        crate::frac::Rat { n: 1, d: 1000 },
        crate::frac::Rat { n: FRAC_MAX as int, d: 1 },
    ) is None ==> c == spec_sky(spec_unit_scaled(r.dir).y as int))
}

/// The channelwise sums of a sample batch.
pub open spec fn sum_px(s: Seq<(Ray, Vec3)>) -> int
    decreases s.len(),
{
    if s.len() == 0 {
        0
    } else {
        sum_px(s.drop_last()) + s.last().1.x
    }
}

/// See [`sum_px`].
pub open spec fn sum_py(s: Seq<(Ray, Vec3)>) -> int
    decreases s.len(),
{
    if s.len() == 0 {
        0
    } else {
        sum_py(s.drop_last()) + s.last().1.y
    }
}

/// See [`sum_px`].
pub open spec fn sum_pz(s: Seq<(Ray, Vec3)>) -> int
    decreases s.len(),
{
    if s.len() == 0 {
        0
    } else {
        sum_pz(s.drop_last()) + s.last().1.z
    }
}

/// `col` is an admissible color of pixel `(i, j)`: the floor-average
/// of one admissible integrator color per sample, each along an
/// admissible camera ray for that pixel.
pub open spec fn spec_pixel_ok(g: CamGeom, world: BvhNode, i: int, j: int, col: Vec3) -> bool {
    exists|samples: Seq<(Ray, Vec3)>|
        #![trigger sum_px(samples)]
        {
            &&& samples.len() == g.samples_per_pixel
            &&& (forall|k: int|
                0 <= k < samples.len() ==> admissible_ray(g, i, j, (#[trigger] samples[k]).0)
                    && admissible_color(world, g.max_bounces, samples[k].0, samples[k].1))
            &&& col.x as int == sum_px(samples) / g.samples_per_pixel
            &&& col.y as int == sum_py(samples) / g.samples_per_pixel
            &&& col.z as int == sum_pz(samples) / g.samples_per_pixel
        }
}

/// Pixel `(i, j)` of a framebuffer holds the gamma-corrected bytes of
/// some admissible color for that pixel.
pub open spec fn pixel_written(
    g: CamGeom,
    world: BvhNode,
    data: Seq<u8>,
    w: int,
    i: int,
    j: int,
) -> bool {
    exists|col: Vec3|
        #![trigger spec_pixel_ok(g, world, i, j, col)]
        {
            &&& 0 <= col.x <= COLOR_MAX
            &&& 0 <= col.y <= COLOR_MAX
            &&& 0 <= col.z <= COLOR_MAX
            &&& spec_pixel_ok(g, world, i, j, col)
            &&& data[3 * (j * w + i)] == crate::color::spec_channel_byte(col.x as int) as u8
            &&& data[3 * (j * w + i) + 1] == crate::color::spec_channel_byte(col.y as int) as u8
            &&& data[3 * (j * w + i) + 2] == crate::color::spec_channel_byte(col.z as int) as u8
        }
}

/// The camera: its configuration and the derived viewport geometry, at
/// fixed point over world coordinates.
pub struct Camera {
    /// Aspect ratio numerator (width over height).
    pub aspect_n: u32,
    /// Aspect ratio denominator.
    pub aspect_d: u32,
    pub image_width: u32,
    pub image_height: u32,
    pub samples_per_pixel: u32,
    pub max_bounces: u32,
    /// The tangent of half the vertical field of view, in fixed point.
    pub fov_tan: i64,
    pub lookfrom: Vec3,
    pub lookat: Vec3,
    pub vup: Vec3,
    /// Derived: the eye point (equal to `lookfrom` after `update`).
    pub center: Vec3,
    /// Derived: upper-left pixel center, fixed point, per axis.
    pub p00_x: i64,
    pub p00_y: i64,
    pub p00_z: i64,
    /// Derived: per-pixel horizontal step, fixed point, per axis.
    pub du_x: i64,
    pub du_y: i64,
    pub du_z: i64,
    /// Derived: per-pixel vertical step, fixed point, per axis.
    pub dv_x: i64,
    pub dv_y: i64,
    pub dv_z: i64,
    /// The output image.
    pub imgbuf: FrameBuffer,
}

/// Well-formedness of a camera's configuration and derived geometry:
/// everything within the budgets the ray generator needs.
pub open spec fn cam_wf(c: Camera) -> bool {
    &&& 0 < c.image_width <= 0x4000
    &&& 0 < c.image_height <= 0x4000
    &&& 1 <= c.samples_per_pixel <= 0x1000
    &&& vec_in(c.center, ORIGIN_MAX as int)
    &&& -0x8000_0000_0000 <= c.p00_x <= 0x8000_0000_0000
    &&& -0x8000_0000_0000 <= c.p00_y <= 0x8000_0000_0000
    &&& -0x8000_0000_0000 <= c.p00_z <= 0x8000_0000_0000
    &&& -0x4000_0000_0000 <= c.du_x <= 0x4000_0000_0000
    &&& -0x4000_0000_0000 <= c.du_y <= 0x4000_0000_0000
    &&& -0x4000_0000_0000 <= c.du_z <= 0x4000_0000_0000
    &&& -0x4000_0000_0000 <= c.dv_x <= 0x4000_0000_0000
    &&& -0x4000_0000_0000 <= c.dv_y <= 0x4000_0000_0000
    &&& -0x4000_0000_0000 <= c.dv_z <= 0x4000_0000_0000
    &&& fb_wf(c.imgbuf)
    &&& c.imgbuf.width == c.image_width
    &&& c.imgbuf.height == c.image_height
}

impl Camera {
    /// A camera with the given aspect ratio and width: the height is
    /// `width * d / n`, at least one; sixteen samples per pixel, ten
    /// bounces, an eighty-degree field of view (as the floor of its
    /// half tangent at fixed point), looking from `+x` at the origin.
    pub fn new(aspect_n: u32, aspect_d: u32, image_width: u32) -> (c: Camera)
        requires
            0 < aspect_n,
            0 < aspect_d,
            0 < image_width <= 0x4000,
            (image_width as int) * (aspect_d as int) / (aspect_n as int) <= 0x4000,
        ensures
            cam_wf(c),
            c.image_width == image_width,
            c.image_height as int == if (image_width as int) * (aspect_d as int) / (
            aspect_n as int) >= 1 {
                (image_width as int) * (aspect_d as int) / (aspect_n as int)
            } else {
                1int
            },
            c.samples_per_pixel == 16,
            c.max_bounces == 10,
            c.fov_tan == 54991,
            c.lookfrom == (Vec3 { x: 9i64, y: 0i64, z: 0i64 }),
            c.lookat == (Vec3 { x: 0i64, y: 0i64, z: 0i64 }),
            c.vup == (Vec3 { x: 0i64, y: 1i64, z: 0i64 }),
            c.center == c.lookfrom,
    {
        proof {
            lemma_mul_bound(image_width as int, aspect_d as int, 0x4000, 0xffff_ffff);
            assert((image_width as int) * (aspect_d as int) >= 0) by (nonlinear_arith)
                requires
                    0 < aspect_d,
                    0 < image_width,
            ;
        }
        let h64 = (image_width as u64) * (aspect_d as u64) / (aspect_n as u64);
        let image_height: u32 = if h64 >= 1 {
            h64 as u32
        } else {
            1
        };
        let imgbuf = FrameBuffer::new(image_width, image_height);
        Camera {
            aspect_n,
            aspect_d,
            image_width,
            image_height,
            samples_per_pixel: 16,
            max_bounces: 10,
            fov_tan: 54991,
            lookfrom: Vec3 { x: 9, y: 0, z: 0 },
            lookat: Vec3 { x: 0, y: 0, z: 0 },
            vup: Vec3 { x: 0, y: 1, z: 0 },
            center: Vec3 { x: 9, y: 0, z: 0 },
            p00_x: 0,
            p00_y: 0,
            p00_z: 0,
            du_x: 0,
            du_y: 0,
            du_z: 0,
            dv_x: 0,
            dv_y: 0,
            dv_z: 0,
            imgbuf,
        }
    }

    /// Derives the viewport geometry from the configuration: the basis
    /// `w = unit(lookfrom - lookat)`, `u = unit(vup x w)`, `v = w x u`,
    /// the viewport extents from the field of view and the focal
    /// length, the per-pixel steps, and the upper-left pixel center.
    /// Results are clamped into the ray generator's budgets; with the
    /// stated input bounds the clamps never engage.
    #[verifier::rlimit(40)]
    pub fn update(&mut self)
        requires
            cam_wf(*old(self)),
            vec_in(old(self).lookfrom, COORD_MAX as int),
            vec_in(old(self).lookat, COORD_MAX as int),
            vec_in(old(self).vup, COORD_MAX as int),
            0 < old(self).fov_tan <= 16 * FP_ONE,
        ensures
            cam_wf(*final(self)),
            final(self).center == old(self).lookfrom,
            final(self).image_width == old(self).image_width,
            final(self).image_height == old(self).image_height,
            final(self).samples_per_pixel == old(self).samples_per_pixel,
            final(self).max_bounces == old(self).max_bounces,
            final(self).imgbuf == old(self).imgbuf,
            final(self).lookfrom == old(self).lookfrom,
            final(self).lookat == old(self).lookat,
            final(self).vup == old(self).vup,
            final(self).fov_tan == old(self).fov_tan,
            final(self).du_x as int == spec_step(
                spec_edge(spec_cam_vw(*old(self)), spec_cam_u(*old(self)).x as int),
                old(self).image_width as int,
            ),
            final(self).du_y as int == spec_step(
                spec_edge(spec_cam_vw(*old(self)), spec_cam_u(*old(self)).y as int),
                old(self).image_width as int,
            ),
            final(self).du_z as int == spec_step(
                spec_edge(spec_cam_vw(*old(self)), spec_cam_u(*old(self)).z as int),
                old(self).image_width as int,
            ),
            final(self).dv_x as int == spec_step(
                spec_edge(spec_cam_vh(*old(self)), -(spec_cam_v(*old(self)).x as int)),
                old(self).image_height as int,
            ),
            final(self).dv_y as int == spec_step(
                spec_edge(spec_cam_vh(*old(self)), -(spec_cam_v(*old(self)).y as int)),
                old(self).image_height as int,
            ),
            final(self).dv_z as int == spec_step(
                spec_edge(spec_cam_vh(*old(self)), -(spec_cam_v(*old(self)).z as int)),
                old(self).image_height as int,
            ),
            final(self).p00_x as int == spec_anchor(
                old(self).lookfrom.x as int,
                spec_cam_focal(*old(self)),
                spec_cam_w(*old(self)).x as int,
                spec_edge(spec_cam_vw(*old(self)), spec_cam_u(*old(self)).x as int),
                spec_edge(spec_cam_vh(*old(self)), -(spec_cam_v(*old(self)).x as int)),
                final(self).du_x as int,
                final(self).dv_x as int,
            ),
            final(self).p00_y as int == spec_anchor(
                old(self).lookfrom.y as int,
                spec_cam_focal(*old(self)),
                spec_cam_w(*old(self)).y as int,
                spec_edge(spec_cam_vw(*old(self)), spec_cam_u(*old(self)).y as int),
                spec_edge(spec_cam_vh(*old(self)), -(spec_cam_v(*old(self)).y as int)),
                final(self).du_y as int,
                final(self).dv_y as int,
            ),
            final(self).p00_z as int == spec_anchor(
                old(self).lookfrom.z as int,
                spec_cam_focal(*old(self)),
                spec_cam_w(*old(self)).z as int,
                spec_edge(spec_cam_vw(*old(self)), spec_cam_u(*old(self)).z as int),
                spec_edge(spec_cam_vh(*old(self)), -(spec_cam_v(*old(self)).z as int)),
                final(self).du_z as int,
                final(self).dv_z as int,
            ),
    {
        let diff = self.lookfrom.sub(&self.lookat);
        proof {
            crate::vec3::lemma_dot_bound(diff, diff, 0x8_0000, 0x8_0000);
            assert(diff == spec_cam_diff(*self));
        }
        let focal_sq = diff.norm_squared();
        let focal_u = crate::frac::isqrt_u128(focal_sq as u128);
        proof {
            assert(focal_u as int <= 0x200_0000) by (nonlinear_arith)
                requires
                    (focal_u as int) * (focal_u as int) <= focal_sq as int,
                    focal_sq as int <= 0x3_0000_0000_0000,
                    focal_u as int >= 0,
            ;
            crate::frac::lemma_sqrt_floor_unique(focal_sq as int, focal_u as int);
        }
        let focal = focal_u as i64;
        let w = unit_scaled(&diff);
        let up_cross_w = self.vup.cross(&w);
        proof {
            crate::vec3::lemma_cross_bound(self.vup, w, COORD_MAX as int, FP_ONE as int);
        }
        let u = unit_scaled(&up_cross_w);
        let w_cross_u = w.cross(&u);
        proof {
            crate::vec3::lemma_cross_bound(w, u, FP_ONE as int, FP_ONE as int);
        }
        // v = (w x u) / FP_ONE, a unit-scale vector
        proof {
            lemma_div_unit(w_cross_u.x as int);
            lemma_div_unit(w_cross_u.y as int);
            lemma_div_unit(w_cross_u.z as int);
        }
        let v = Vec3 {
            x: floor_div_i128(w_cross_u.x as i128, FP_ONE as i128) as i64,
            y: floor_div_i128(w_cross_u.y as i128, FP_ONE as i128) as i64,
            z: floor_div_i128(w_cross_u.z as i128, FP_ONE as i128) as i64,
        };
        self.center = self.lookfrom;
        // viewport extents at fixed point: vh = 2 * tan * focal
        proof {
            lemma_mul_bound(2 * (self.fov_tan as int), focal as int, 0x20_0000, 0x200_0000);
        }
        let vh = 2 * (self.fov_tan as i128) * (focal as i128);
        proof {
            lemma_mul_bound(vh as int, self.image_width as int, 0x4000_0000_0000, 0x4000);
            lemma_vw_bound(vh as int, self.image_width as int, self.image_height as int);
        }
        let vw = floor_div_i128(vh * (self.image_width as i128), self.image_height as i128);
        // viewport edges (fixed point world): vu = vw * u / FP, vv = vh * (-v) / FP
        let vux = mul_unit(vw, u.x);
        let vuy = mul_unit(vw, u.y);
        let vuz = mul_unit(vw, u.z);
        let vvx = mul_unit(vh, -v.x);
        let vvy = mul_unit(vh, -v.y);
        let vvz = mul_unit(vh, -v.z);
        // per-pixel steps
        self.du_x = clamp_step(floor_div_i128(vux, self.image_width as i128));
        self.du_y = clamp_step(floor_div_i128(vuy, self.image_width as i128));
        self.du_z = clamp_step(floor_div_i128(vuz, self.image_width as i128));
        self.dv_x = clamp_step(floor_div_i128(vvx, self.image_height as i128));
        self.dv_y = clamp_step(floor_div_i128(vvy, self.image_height as i128));
        self.dv_z = clamp_step(floor_div_i128(vvz, self.image_height as i128));
        // upper-left corner plus half a pixel step
        proof {
            lemma_mul_bound(focal as int, w.x as int, 0x200_0000, FP_ONE as int);
            lemma_mul_bound(focal as int, w.y as int, 0x200_0000, FP_ONE as int);
            lemma_mul_bound(focal as int, w.z as int, 0x200_0000, FP_ONE as int);
        }
        self.p00_x = clamp_anchor(
            (self.center.x as i128) * (FP_ONE as i128) - (focal as i128) * (w.x as i128)
                - floor_div_i128(vux, 2) - floor_div_i128(vvx, 2) + floor_div_i128(
                self.du_x as i128,
                2,
            ) + floor_div_i128(self.dv_x as i128, 2),
        );
        self.p00_y = clamp_anchor(
            (self.center.y as i128) * (FP_ONE as i128) - (focal as i128) * (w.y as i128)
                - floor_div_i128(vuy, 2) - floor_div_i128(vvy, 2) + floor_div_i128(
                self.du_y as i128,
                2,
            ) + floor_div_i128(self.dv_y as i128, 2),
        );
        self.p00_z = clamp_anchor(
            (self.center.z as i128) * (FP_ONE as i128) - (focal as i128) * (w.z as i128)
                - floor_div_i128(vuz, 2) - floor_div_i128(vvz, 2) + floor_div_i128(
                self.du_z as i128,
                2,
            ) + floor_div_i128(self.dv_z as i128, 2),
        );
    }

    /// One camera ray: from the eye through the center of pixel
    /// `(i, j)`, jittered by a uniform sub-pixel offset, its direction
    /// rounded to integer world units.
    pub fn get_ray(&self, i: u32, j: u32, rng: &mut ThreadRng) -> (r: Ray)
        requires
            cam_wf(*self),
            i < self.image_width,
            j < self.image_height,
        ensures
            ray_ok(r),
            r.orig == self.center,
            exists|jx: int, jy: int|
                0 <= jx < FP_ONE as int && 0 <= jy < FP_ONE as int && r.dir.x as int
                    == #[trigger] spec_sample_dir_axis(
                    self.p00_x as int,
                    self.du_x as int,
                    self.dv_x as int,
                    self.center.x as int,
                    i as int,
                    j as int,
                    jx,
                    jy,
                ) && r.dir.y as int == spec_sample_dir_axis(
                    self.p00_y as int,
                    self.du_y as int,
                    self.dv_y as int,
                    self.center.y as int,
                    i as int,
                    j as int,
                    jx,
                    jy,
                ) && r.dir.z as int == spec_sample_dir_axis(
                    self.p00_z as int,
                    self.du_z as int,
                    self.dv_z as int,
                    self.center.z as int,
                    i as int,
                    j as int,
                    jx,
                    jy,
                ),
    {
        let jx = rng_range_i64(rng, 0, FP_ONE);
        let jy = rng_range_i64(rng, 0, FP_ONE);
        proof {
            lemma_sample_bounds(
                i as int,
                j as int,
                self.du_x as int,
                self.dv_x as int,
                jx as int,
                jy as int,
            );
            lemma_sample_bounds(
                i as int,
                j as int,
                self.du_y as int,
                self.dv_y as int,
                jx as int,
                jy as int,
            );
            lemma_sample_bounds(
                i as int,
                j as int,
                self.du_z as int,
                self.dv_z as int,
                jx as int,
                jy as int,
            );
        }
        let sx = (self.p00_x as i128) + (i as i128) * (self.du_x as i128) + (j as i128) * (
        self.dv_x as i128) + floor_div_i128(
            ((jx as i128) - 32768) * (self.du_x as i128),
            FP_ONE as i128,
        ) + floor_div_i128(((jy as i128) - 32768) * (self.dv_x as i128), FP_ONE as i128);
        let sy = (self.p00_y as i128) + (i as i128) * (self.du_y as i128) + (j as i128) * (
        self.dv_y as i128) + floor_div_i128(
            ((jx as i128) - 32768) * (self.du_y as i128),
            FP_ONE as i128,
        ) + floor_div_i128(((jy as i128) - 32768) * (self.dv_y as i128), FP_ONE as i128);
        let sz = (self.p00_z as i128) + (i as i128) * (self.du_z as i128) + (j as i128) * (
        self.dv_z as i128) + floor_div_i128(
            ((jx as i128) - 32768) * (self.du_z as i128),
            FP_ONE as i128,
        ) + floor_div_i128(((jy as i128) - 32768) * (self.dv_z as i128), FP_ONE as i128);
        let dir = Vec3 {
            x: clamp_to_dir(
                floor_div_i128(sx - (self.center.x as i128) * (FP_ONE as i128), FP_ONE as i128),
            ),
            y: clamp_to_dir(
                floor_div_i128(sy - (self.center.y as i128) * (FP_ONE as i128), FP_ONE as i128),
            ),
            z: clamp_to_dir(
                floor_div_i128(sz - (self.center.z as i128) * (FP_ONE as i128), FP_ONE as i128),
            ),
        };
        proof {
            assert(dir.x as int == spec_sample_dir_axis(
                self.p00_x as int,
                self.du_x as int,
                self.dv_x as int,
                self.center.x as int,
                i as int,
                j as int,
                jx as int,
                jy as int,
            ));
            assert(dir.y as int == spec_sample_dir_axis(
                self.p00_y as int,
                self.du_y as int,
                self.dv_y as int,
                self.center.y as int,
                i as int,
                j as int,
                jx as int,
                jy as int,
            ));
            assert(dir.z as int == spec_sample_dir_axis(
                self.p00_z as int,
                self.du_z as int,
                self.dv_z as int,
                self.center.z as int,
                i as int,
                j as int,
                jx as int,
                jy as int,
            ));
        }
        Ray { orig: self.center, dir }
    }

    /// Renders the scene into the framebuffer, headless: for each
    /// pixel, the average of `samples_per_pixel` jittered rays,
    /// gamma-corrected and stored by `write_color`. Scanlines are
    /// processed in order.
    pub fn render_no_preview(&mut self, world: &BvhNode, rng: &mut ThreadRng)
        requires
            cam_wf(*old(self)),
            node_wf(*world),
        ensures
            cam_wf(*final(self)),
            final(self).image_width == old(self).image_width,
            final(self).image_height == old(self).image_height,
            cam_geom(*final(self)) == cam_geom(*old(self)),
            forall|i: int, j: int|
                0 <= i < old(self).image_width && 0 <= j < old(self).image_height
                    ==> #[trigger] pixel_written(
                    cam_geom(*old(self)),
                    *world,
                    final(self).imgbuf.data@,
                    old(self).image_width as int,
                    i,
                    j,
                ),
    {
        let ghost g = cam_geom(*self);
        let w = self.image_width;
        let h = self.image_height;
        let mut j: u32 = 0;
        while j < h
            invariant
                cam_wf(*self),
                node_wf(*world),
                w == self.image_width,
                h == self.image_height,
                j <= h,
                cam_geom(*self) == g,
                forall|i2: int, j2: int|
                    0 <= i2 < w && 0 <= j2 < j ==> #[trigger] pixel_written(
                        g,
                        *world,
                        self.imgbuf.data@,
                        w as int,
                        i2,
                        j2,
                    ),
            decreases h - j,
        {
            let mut i: u32 = 0;
            while i < w
                invariant
                    cam_wf(*self),
                    node_wf(*world),
                    w == self.image_width,
                    h == self.image_height,
                    j < h,
                    i <= w,
                    cam_geom(*self) == g,
                    forall|i2: int, j2: int|
                        0 <= i2 < w && 0 <= j2 < j ==> #[trigger] pixel_written(
                            g,
                            *world,
                            self.imgbuf.data@,
                            w as int,
                            i2,
                            j2,
                        ),
                    forall|i2: int|
                        0 <= i2 < i ==> #[trigger] pixel_written(
                            g,
                            *world,
                            self.imgbuf.data@,
                            w as int,
                            i2,
                            j as int,
                        ),
                decreases w - i,
            {
                let ghost pre_data = self.imgbuf.data@;
                let color = self.sample_pixel(i, j, world, rng);
                let mut buf = FrameBuffer { width: 0, height: 0, data: Vec::new() };
                core::mem::swap(&mut buf, &mut self.imgbuf);
                proof {
                    assert(buf.data@ == pre_data);
                    assert(buf.width == w);
                }
                write_color(i, j, &mut buf, color);
                proof {
                    let widx = 3 * ((j as int) * (w as int) + i as int);
                    assert(buf.data@ == pre_data.update(
                        widx,
                        crate::color::spec_channel_byte(color.x as int) as u8,
                    ).update(widx + 1, crate::color::spec_channel_byte(color.y as int) as u8)
                        .update(widx + 2, crate::color::spec_channel_byte(color.z as int) as u8));
                }
                core::mem::swap(&mut buf, &mut self.imgbuf);
                proof {
                    let data = self.imgbuf.data@;
                    // the written cells lie inside the buffer
                    assert((j as int) * (w as int) + i as int <= (w as int) * (h as int) - 1)
                        by (nonlinear_arith)
                        requires
                            0 <= i as int,
                            (i as int) < w as int,
                            0 <= j as int,
                            (j as int) < h as int,
                            0 < w as int,
                    ;
                    assert(3 * ((w as int) * (h as int)) == 3 * (w as int) * (h as int))
                        by (nonlinear_arith);
                    // earlier pixels sit strictly below the written cells,
                    // so their bytes are unchanged and their witnesses
                    // carry over
                    assert forall|i2: int, j2: int|
                        0 <= i2 < w && 0 <= j2 < j implies #[trigger] pixel_written(
                        g,
                        *world,
                        data,
                        w as int,
                        i2,
                        j2,
                    ) by {
                        assert(j2 * (w as int) + i2 < (j as int) * (w as int) + i as int && j2 * (
                        w as int) + i2 <= (w as int) * (h as int) - 1) by (nonlinear_arith)
                            requires
                                0 <= i2 < w as int,
                                0 <= j2 < j as int,
                                j as int <= h as int,
                                0 < w as int,
                        ;
                        assert(3 * ((w as int) * (h as int)) == 3 * (w as int) * (h as int))
                            by (nonlinear_arith);
                        assert(pixel_written(g, *world, pre_data, w as int, i2, j2));
                        let col = choose|col: Vec3|
                            #![trigger spec_pixel_ok(g, *world, i2, j2, col)]
                            {
                                &&& 0 <= col.x <= COLOR_MAX
                                &&& 0 <= col.y <= COLOR_MAX
                                &&& 0 <= col.z <= COLOR_MAX
                                &&& spec_pixel_ok(g, *world, i2, j2, col)
                                &&& pre_data[3 * (j2 * (w as int) + i2)]
                                    == crate::color::spec_channel_byte(col.x as int) as u8
                                &&& pre_data[3 * (j2 * (w as int) + i2) + 1]
                                    == crate::color::spec_channel_byte(col.y as int) as u8
                                &&& pre_data[3 * (j2 * (w as int) + i2) + 2]
                                    == crate::color::spec_channel_byte(col.z as int) as u8
                            };
                        assert(data[3 * (j2 * (w as int) + i2)] == pre_data[3 * (j2 * (w as int)
                            + i2)]);
                        assert(spec_pixel_ok(g, *world, i2, j2, col));
                    }
                    assert forall|i2: int|
                        0 <= i2 < i as int implies #[trigger] pixel_written(
                        g,
                        *world,
                        data,
                        w as int,
                        i2,
                        j as int,
                    ) by {
                        assert(j as int * (w as int) + i2 < (j as int) * (w as int) + i as int);
                        assert((j as int) * (w as int) + i2 <= (w as int) * (h as int) - 1)
                            by (nonlinear_arith)
                            requires
                                0 <= i2 < w as int,
                                0 <= j as int,
                                (j as int) < h as int,
                                0 < w as int,
                        ;
                        assert(3 * ((w as int) * (h as int)) == 3 * (w as int) * (h as int))
                            by (nonlinear_arith);
                        assert(pixel_written(g, *world, pre_data, w as int, i2, j as int));
                        let col = choose|col: Vec3|
                            #![trigger spec_pixel_ok(g, *world, i2, j as int, col)]
                            {
                                &&& 0 <= col.x <= COLOR_MAX
                                &&& 0 <= col.y <= COLOR_MAX
                                &&& 0 <= col.z <= COLOR_MAX
                                &&& spec_pixel_ok(g, *world, i2, j as int, col)
                                &&& pre_data[3 * ((j as int) * (w as int) + i2)]
                                    == crate::color::spec_channel_byte(col.x as int) as u8
                                &&& pre_data[3 * ((j as int) * (w as int) + i2) + 1]
                                    == crate::color::spec_channel_byte(col.y as int) as u8
                                &&& pre_data[3 * ((j as int) * (w as int) + i2) + 2]
                                    == crate::color::spec_channel_byte(col.z as int) as u8
                            };
                        assert(data[3 * ((j as int) * (w as int) + i2)] == pre_data[3 * ((
                        j as int) * (w as int) + i2)]);
                        assert(spec_pixel_ok(g, *world, i2, j as int, col));
                    }
                    // and the pixel just written holds this sample's bytes
                    assert(pixel_written(g, *world, data, w as int, i as int, j as int)) by {
                        assert(spec_pixel_ok(g, *world, i as int, j as int, color));
                    }
                }
                i += 1;
            }
            j += 1;
        }
    }

    /// The averaged color of one pixel over the sample budget.
    pub fn sample_pixel(&self, i: u32, j: u32, world: &BvhNode, rng: &mut ThreadRng) -> (c: Vec3)
        requires
            cam_wf(*self),
            node_wf(*world),
            i < self.image_width,
            j < self.image_height,
        ensures
            0 <= c.x <= COLOR_MAX,
            0 <= c.y <= COLOR_MAX,
            0 <= c.z <= COLOR_MAX,
            spec_pixel_ok(cam_geom(*self), *world, i as int, j as int, c),
    {
        let ghost mut gsamples: Seq<(Ray, Vec3)> = Seq::empty();
        let mut sx: i128 = 0;
        let mut sy: i128 = 0;
        let mut sz: i128 = 0;
        let mut s: u32 = 0;
        let n = self.samples_per_pixel;
        while s < n
            invariant
                cam_wf(*self),
                node_wf(*world),
                i < self.image_width,
                j < self.image_height,
                s <= n,
                n == self.samples_per_pixel,
                n <= 0x1000,
                0 <= sx <= (s as int) * (COLOR_MAX as int),
                0 <= sy <= (s as int) * (COLOR_MAX as int),
                0 <= sz <= (s as int) * (COLOR_MAX as int),
                gsamples.len() == s as int,
                forall|k: int|
                    0 <= k < gsamples.len() ==> admissible_ray(
                        cam_geom(*self),
                        i as int,
                        j as int,
                        (#[trigger] gsamples[k]).0,
                    ) && admissible_color(
                        *world,
                        self.max_bounces,
                        gsamples[k].0,
                        gsamples[k].1,
                    ),
                sx as int == sum_px(gsamples),
                sy as int == sum_py(gsamples),
                sz as int == sum_pz(gsamples),
            decreases n - s,
        {
            let r = self.get_ray(i, j, rng);
            let c = ray_color(&r, self.max_bounces, world, rng);
            proof {
                assert((s as int + 1) * (COLOR_MAX as int) == (s as int) * (COLOR_MAX as int)
                    + COLOR_MAX) by (nonlinear_arith);
                let ghost old_samples = gsamples;
                gsamples = gsamples.push((r, c));
                assert(gsamples.drop_last() =~= old_samples);
                assert(admissible_ray(cam_geom(*self), i as int, j as int, r));
                assert(admissible_color(*world, self.max_bounces, r, c));
            }
            sx = sx + c.x as i128;
            sy = sy + c.y as i128;
            sz = sz + c.z as i128;
            s += 1;
        }
        proof {
            lemma_avg_bounds(sx as int, n as int);
            lemma_avg_bounds(sy as int, n as int);
            lemma_avg_bounds(sz as int, n as int);
        }
        let c = Vec3 {
            x: (sx / (n as i128)) as i64,
            y: (sy / (n as i128)) as i64,
            z: (sz / (n as i128)) as i64,
        };
        proof {
            assert(spec_pixel_ok(cam_geom(*self), *world, i as int, j as int, c)) by {
                assert(gsamples.len() == cam_geom(*self).samples_per_pixel);
                assert(c.x as int == sum_px(gsamples) / cam_geom(*self).samples_per_pixel);
                assert(c.y as int == sum_py(gsamples) / cam_geom(*self).samples_per_pixel);
                assert(c.z as int == sum_pz(gsamples) / cam_geom(*self).samples_per_pixel);
            }
        }
        c
    }
}

/// The average of at most `n` bounded samples is bounded.
proof fn lemma_avg_bounds(s: int, n: int)
    requires
        1 <= n,
        0 <= s <= n * 16777216,
    ensures
        0 <= s / n <= 16777216,
{
    assert(0 <= s / n <= 16777216) by (nonlinear_arith)
        requires
            1 <= n,
            0 <= s <= n * 16777216,
    ;
}

/// Multiplies a viewport extent by a unit-scale component, landing at
/// fixed point; clamped into the edge budget.
fn mul_unit(v: i128, u: i64) -> (r: i128)
    requires
        -0x8000_0000_0000_0000 <= v <= 0x8000_0000_0000_0000,
        -0x4_0000 <= u <= 0x4_0000,
    ensures
        r as int == spec_edge(v as int, u as int),
        -0x2000_0000_0000 <= r <= 0x2000_0000_0000,
{
    proof {
        lemma_mul_bound(v as int, u as int, 0x8000_0000_0000_0000, 0x4_0000);
    }
    let x = floor_div_i128(v * (u as i128), FP_ONE as i128);
    if x < -0x2000_0000_0000 {
        -0x2000_0000_0000
    } else if x > 0x2000_0000_0000 {
        0x2000_0000_0000
    } else {
        x
    }
}

/// Dividing a cross product of unit-scale vectors by the fixed-point
/// one lands within twice the unit scale.
proof fn lemma_div_unit(x: int)
    requires
        -0x2_0000_0000 <= x <= 0x2_0000_0000,
    ensures
        -0x4_0000 <= x / 65536 <= 0x4_0000,
{
    assert(-0x4_0000 <= x / 65536 <= 0x4_0000) by (nonlinear_arith)
        requires
            -0x2_0000_0000 <= x <= 0x2_0000_0000,
    ;
}

/// The viewport width is within the edge budget.
proof fn lemma_vw_bound(vh: int, w: int, h: int)
    requires
        -0x2_0000_0000_0000 <= vh <= 0x2_0000_0000_0000,
        0 < w <= 0x4000,
        0 < h,
    ensures
        -0x8000_0000_0000_0000 <= vh * w / h <= 0x8000_0000_0000_0000,
{
    assert(-0x8000_0000_0000_0000 <= vh * w / h <= 0x8000_0000_0000_0000) by (nonlinear_arith)
        requires
            -0x2_0000_0000_0000 <= vh <= 0x2_0000_0000_0000,
            0 < w <= 0x4000,
            0 < h,
    ;
}

/// Clamps a per-pixel step into its budget.
fn clamp_step(x: i128) -> (r: i64)
    ensures
        r as int == crate::vec3::spec_clamp_mag(x as int, 0x4000_0000_0000),
        -0x4000_0000_0000 <= r <= 0x4000_0000_0000,
{
    if x < -0x4000_0000_0000 {
        -0x4000_0000_0000
    } else if x > 0x4000_0000_0000 {
        0x4000_0000_0000
    } else {
        x as i64
    }
}

/// Clamps the pixel anchor into its budget.
fn clamp_anchor(x: i128) -> (r: i64)
    ensures
        r as int == crate::vec3::spec_clamp_mag(x as int, 0x8000_0000_0000),
        -0x8000_0000_0000 <= r <= 0x8000_0000_0000,
{
    if x < -0x8000_0000_0000 {
        -0x8000_0000_0000
    } else if x > 0x8000_0000_0000 {
        0x8000_0000_0000
    } else {
        x as i64
    }
}

/// Clamps a rounded sample offset into the direction budget.
fn clamp_to_dir(x: i128) -> (r: i64)
    ensures
        r as int == crate::vec3::spec_clamp_mag(x as int, COORD_MAX as int),
        -COORD_MAX <= r <= COORD_MAX,
{
    if x < -(COORD_MAX as i128) {
        -COORD_MAX
    } else if x > COORD_MAX as i128 {
        COORD_MAX
    } else {
        x as i64
    }
}

/// All intermediate sample sums in `get_ray` stay within `i128`.
proof fn lemma_sample_bounds(i: int, j: int, du: int, dv: int, jx: int, jy: int)
    requires
        0 <= i <= 0x4000,
        0 <= j <= 0x4000,
        -0x4000_0000_0000 <= du <= 0x4000_0000_0000,
        -0x4000_0000_0000 <= dv <= 0x4000_0000_0000,
        0 <= jx <= 65536,
        0 <= jy <= 65536,
    ensures
        -0x1_0000_0000_0000_0000 <= i * du <= 0x1_0000_0000_0000_0000,
        -0x1_0000_0000_0000_0000 <= j * dv <= 0x1_0000_0000_0000_0000,
        -0x4_0000_0000_0000_0000 <= (jx - 32768) * du <= 0x4_0000_0000_0000_0000,
        -0x4_0000_0000_0000_0000 <= (jy - 32768) * dv <= 0x4_0000_0000_0000_0000,
{
    lemma_mul_bound(i, du, 0x4000, 0x4000_0000_0000);
    lemma_mul_bound(j, dv, 0x4000, 0x4000_0000_0000);
    lemma_mul_bound(jx - 32768, du, 65536, 0x4000_0000_0000);
    lemma_mul_bound(jy - 32768, dv, 65536, 0x4000_0000_0000);
}

} // verus!
