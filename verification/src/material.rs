//! Surface materials.
//!
//! A material is one of four BSDFs. Colors and parameters are fixed
//! point at scale [`crate::FP_ONE`]: a metal fuzz of `FP_ONE` is 1.0, a
//! dielectric index of `98304` is 1.5. Scattering lives with the
//! integrator in the camera module's orbit; this module holds the data
//! model and its constructors.

use vstd::prelude::*;
use crate::vec3::{Vec3, RatVec3, rv_ok, vec_in, spec_norm_sq, unit_scaled, spec_unit_scaled,
    reflect, refract, spec_clamp_mag};
use crate::frac::{floor_div_i128, isqrt_u128, lemma_mul_bound};
use crate::texture::{Texture, CheckerTexture, tex_wf, spec_value};
use crate::ray::{Ray, ray_ok};
use crate::hittable::{HitRecord, rec_wf, rv_dot_v};
use crate::rng::rng_range_i64;
use crate::{FP_ONE, COORD_MAX, ORIGIN_MAX};
use rand::rngs::ThreadRng;

verus! {

/// Rounds an exact rational point to integer coordinates (floor), each
/// component clamped into the ray-origin budget, so the result can seed
/// the next ray.
pub fn round_point(p: &RatVec3) -> (o: Vec3)
    requires
        rv_ok(*p),
    ensures
        o.x as int == spec_clamp_mag((p.nx as int) / (p.d as int), ORIGIN_MAX as int),
        o.y as int == spec_clamp_mag((p.ny as int) / (p.d as int), ORIGIN_MAX as int),
        o.z as int == spec_clamp_mag((p.nz as int) / (p.d as int), ORIGIN_MAX as int),
        vec_in(o, ORIGIN_MAX as int),
{
    let x = clamp_origin(floor_div_i128(p.nx, p.d));
    let y = clamp_origin(floor_div_i128(p.ny, p.d));
    let z = clamp_origin(floor_div_i128(p.nz, p.d));
    Vec3 { x, y, z }
}

/// Clamps a wide coordinate into the ray-origin budget.
fn clamp_origin(x: i128) -> (r: i64)
    ensures
        r as int == spec_clamp_mag(x as int, ORIGIN_MAX as int),
{
    if x < -(ORIGIN_MAX as i128) {
        -ORIGIN_MAX
    } else if x > ORIGIN_MAX as i128 {
        ORIGIN_MAX
    } else {
        x as i64
    }
}

/// Draws a direction of roughly fixed-point unit length, uniformly
/// over the sphere: rejection-sample the unit ball, then scale. A
/// bounded number of draws keeps the function total; after too many
/// rejections it falls back to the `z` unit. Whatever was drawn, the
/// result is the unit scaling of some nonzero draw inside the ball,
/// or that fallback.
pub fn random_unit_vector(rng: &mut ThreadRng) -> (r: Vec3)
    ensures
        vec_in(r, FP_ONE as int),
        !(r.x == 0 && r.y == 0 && r.z == 0),
        r == (Vec3 { x: 0i64, y: 0i64, z: FP_ONE }) || exists|d: Vec3|
            vec_in(d, FP_ONE as int) && 0 < spec_norm_sq(d) <= (FP_ONE as int) * (FP_ONE as int)
                && r == #[trigger] spec_unit_scaled(d),
{
    let mut tries: u32 = 0;
    while tries < 64
        invariant
            tries <= 64,
        decreases 64 - tries,
    {
        let x = rng_range_i64(rng, -FP_ONE, FP_ONE + 1);
        let y = rng_range_i64(rng, -FP_ONE, FP_ONE + 1);
        let z = rng_range_i64(rng, -FP_ONE, FP_ONE + 1);
        let v = Vec3 { x, y, z };
        let nsq = v.norm_squared();
        if 0 < nsq && nsq <= 0x1_0000_0000i128 {
            let u = unit_scaled(&v);
            if !(u.x == 0 && u.y == 0 && u.z == 0) {
                proof {
                    assert(u == spec_unit_scaled(v));
                }
                return u;
            }
        }
        tries += 1;
    }
    Vec3 { x: 0, y: 0, z: FP_ONE }
}

/// A surface material: diffuse, metallic, refractive, or emitting.
pub enum Material {
    /// Diffuse scattering; attenuation sampled from the texture.
    Lambertian(Texture),
    /// Mirror reflection with albedo and fuzz in `[0, FP_ONE]`.
    Metal(Vec3, i64),
    /// Refraction with the given fixed-point index of refraction.
    Dielectric(i64),
    /// Emission of `color * strength`; terminates the path.
    Emissive(Vec3, i64),
}

/// Well-formedness of a material: texture well-formed, fuzz in
/// `[0, FP_ONE]`, index of refraction positive, strength nonnegative.
pub open spec fn mat_wf(m: Material) -> bool {
    match m {
        Material::Lambertian(tex) => tex_wf(tex),
        Material::Metal(albedo, fuzz) => 0 <= fuzz <= FP_ONE && 0 <= albedo.x <= FP_ONE && 0
            <= albedo.y <= FP_ONE && 0 <= albedo.z <= FP_ONE,
        Material::Dielectric(ir) => 0 < ir <= 0x100_0000,
        Material::Emissive(color, strength) => 0 <= strength <= 0x100_0000 && 0 <= color.x
            <= FP_ONE && 0 <= color.y <= FP_ONE && 0 <= color.z <= FP_ONE,
    }
}

impl Material {
    /// A diffuse material over a texture.
    pub fn lambertian(tex: Texture) -> (r: Material)
        requires
            tex_wf(tex),
        ensures
            r == Material::Lambertian(tex),
            mat_wf(r),
    {
        Material::Lambertian(tex)
    }

    /// A metal with the given albedo; fuzz is clamped into `[0, FP_ONE]`.
    pub fn metal(albedo: Vec3, fuzz: i64) -> (r: Material)
        requires
            0 <= albedo.x <= FP_ONE,
            0 <= albedo.y <= FP_ONE,
            0 <= albedo.z <= FP_ONE,
        ensures
            r == Material::Metal(
                albedo,
                if fuzz < 0 {
                    0i64
                } else if fuzz > FP_ONE {
                    FP_ONE
                } else {
                    fuzz
                },
            ),
            mat_wf(r),
    {
        let f = if fuzz < 0 {
            0
        } else if fuzz > FP_ONE {
            FP_ONE
        } else {
            fuzz
        };
        Material::Metal(albedo, f)
    }

    /// A dielectric with the given fixed-point index of refraction.
    pub fn dielectric(ir: i64) -> (r: Material)
        requires
            0 < ir <= 0x100_0000,
        ensures
            r == Material::Dielectric(ir),
            mat_wf(r),
    {
        Material::Dielectric(ir)
    }

    /// An emitter of `color * strength`.
    pub fn emissive(color: Vec3, strength: i64) -> (r: Material)
        requires
            0 <= strength <= 0x100_0000,
            0 <= color.x <= FP_ONE,
            0 <= color.y <= FP_ONE,
            0 <= color.z <= FP_ONE,
        ensures
            r == Material::Emissive(color, strength),
            mat_wf(r),
    {
        Material::Emissive(color, strength)
    }
}

/// The rounded scatter origin, as a spec value: the hit point floored
/// to integer coordinates and clamped into the ray-origin budget.
pub open spec fn spec_round_point(p: RatVec3) -> Vec3 {
    Vec3 {
        x: spec_clamp_mag((p.nx as int) / (p.d as int), ORIGIN_MAX as int) as i64,
        y: spec_clamp_mag((p.ny as int) / (p.d as int), ORIGIN_MAX as int) as i64,
        z: spec_clamp_mag((p.nz as int) / (p.d as int), ORIGIN_MAX as int) as i64,
    }
}

/// The unit scaling of an exact rational direction, as the scatter
/// paths compute it: shrink the numerators by the denominator (clamped
/// into the computation budget), then scale to fixed-point unit length.
pub open spec fn spec_unit_of_rat(v: RatVec3) -> Vec3 {
    spec_unit_scaled(
        Vec3 {
            x: spec_clamp_mag((v.nx as int) / (v.d as int), 0x4000_0000_0000) as i64,
            y: spec_clamp_mag((v.ny as int) / (v.d as int), 0x4000_0000_0000) as i64,
            z: spec_clamp_mag((v.nz as int) / (v.d as int), 0x4000_0000_0000) as i64,
        },
    )
}

/// The diffuse scatter direction for a drawn unit vector: the oriented
/// unit normal plus the draw, with a degenerate zero sum replaced by
/// the normal.
pub open spec fn spec_lambertian_dir(nhat: Vec3, xi: Vec3) -> Vec3 {
    let sum = Vec3 {
        x: (nhat.x + xi.x) as i64,
        y: (nhat.y + xi.y) as i64,
        z: (nhat.z + xi.z) as i64,
    };
    if sum == (Vec3 { x: 0i64, y: 0i64, z: 0i64 }) {
        nhat
    } else {
        sum
    }
}

/// The metal scatter direction for a drawn unit vector: the reflection
/// perturbed by `fuzz * xi`, clamped into the ray budget.
pub open spec fn spec_metal_dir(vhat: Vec3, nhat: Vec3, fuzz: int, xi: Vec3) -> Vec3 {
    let refl = crate::vec3::spec_reflect(vhat, nhat);
    Vec3 {
        x: spec_clamp_mag(
            refl.x as int + fuzz * (xi.x as int) / (FP_ONE as int),
            COORD_MAX as int,
        ) as i64,
        y: spec_clamp_mag(
            refl.y as int + fuzz * (xi.y as int) / (FP_ONE as int),
            COORD_MAX as int,
        ) as i64,
        z: spec_clamp_mag(
            refl.z as int + fuzz * (xi.z as int) / (FP_ONE as int),
            COORD_MAX as int,
        ) as i64,
    }
}

/// The clamped cosine of the incidence angle at fixed point, from the
/// unit-scaled direction and normal.
pub open spec fn spec_diel_cos(vhat: Vec3, nhat: Vec3) -> int {
    let c0 = (-crate::vec3::spec_dot(vhat, nhat)) / (FP_ONE as int);
    if c0 > FP_ONE as int {
        FP_ONE as int
    } else {
        c0
    }
}

/// The fixed-point sine from the clamped cosine.
pub open spec fn spec_diel_sin(cos: int) -> int {
    let one2 = (FP_ONE as int) * (FP_ONE as int);
    if cos * cos >= one2 {
        0
    } else {
        crate::frac::sqrt_floor(one2 - cos * cos)
    }
}

/// Total internal reflection: the refraction ratio times the sine
/// exceeds one.
pub open spec fn spec_diel_cannot(cos: int, en: int, ed: int) -> bool {
    en * spec_diel_sin(cos) > ed * (FP_ONE as int)
}

/// The Schlick reflectance at fixed point:
/// `r0 + (1 - r0) (1 - cos)^5` with `r0 = ((ed - en) / (ed + en))^2`.
pub open spec fn spec_schlick(cos: int, en: int, ed: int) -> int {
    let dm = ed - en;
    let dp = ed + en;
    let r0 = dm * dm * (FP_ONE as int) / (dp * dp);
    let x1 = FP_ONE as int - cos;
    let x5 = ((x1 * x1) * (x1 * x1)) * x1;
    let one5 = (FP_ONE as int) * (FP_ONE as int) * (FP_ONE as int) * (FP_ONE as int) * (
    FP_ONE as int);
    r0 + ((FP_ONE as int) - r0) * x5 / one5
}

/// The dielectric scatter direction for a drawn threshold sample:
/// reflect under total internal reflection or when the Schlick
/// reflectance exceeds the sample, else refract.
pub open spec fn spec_diel_dir(vhat: Vec3, nhat: Vec3, en: int, ed: int, xi: int) -> Vec3 {
    let cos = spec_diel_cos(vhat, nhat);
    if spec_diel_cannot(cos, en, ed) || spec_schlick(cos, en, ed) > xi {
        crate::vec3::spec_reflect(vhat, nhat)
    } else {
        crate::vec3::spec_refract(vhat, nhat, en, ed)
    }
}

/// What `scatter` can output at a surface, over the hit's plain
/// values: the exact attenuation per material, every scattered ray
/// from the rounded hit point and within the ray budget, and the
/// direction pinned for some admissible draw (see `scatter`).
pub open spec fn scatter_admits(
    m: Material,
    r_in: Ray,
    p: RatVec3,
    normal: RatVec3,
    front_face: bool,
    u: int,
    v: int,
    out: (Vec3, Option<Ray>),
) -> bool {
    &&& match m {
        Material::Lambertian(tex) => {
            &&& out.0 == spec_value(tex, u, v, p@)
            &&& exists|xi: Vec3|
                vec_in(xi, FP_ONE as int) && xi != (Vec3 { x: 0i64, y: 0i64, z: 0i64 }) && out.1
                    == Some(
                    Ray {
                        orig: spec_round_point(p),
                        dir: #[trigger] spec_lambertian_dir(spec_unit_of_rat(normal), xi),
                    },
                )
        },
        Material::Metal(albedo, fuzz) => {
            &&& out.0 == albedo
            &&& (spec_unit_of_rat(normal) == (Vec3 { x: 0i64, y: 0i64, z: 0i64 }) ==> out.1
                is None)
            &&& (spec_unit_of_rat(normal) != (Vec3 { x: 0i64, y: 0i64, z: 0i64 })
                ==> exists|xi: Vec3|
                vec_in(xi, FP_ONE as int) && xi != (Vec3 { x: 0i64, y: 0i64, z: 0i64 }) && ({
                    let dir = #[trigger] spec_metal_dir(
                        spec_unit_scaled(r_in.dir),
                        spec_unit_of_rat(normal),
                        fuzz as int,
                        xi,
                    );
                    if rv_dot_v(normal, dir) > 0 {
                        out.1 == Some(Ray { orig: spec_round_point(p), dir })
                    } else {
                        out.1 is None
                    }
                }))
        },
        Material::Dielectric(ir) => {
            &&& out.0 == (Vec3 { x: FP_ONE, y: FP_ONE, z: FP_ONE })
            &&& (spec_unit_of_rat(normal) == (Vec3 { x: 0i64, y: 0i64, z: 0i64 }) ==> out.1
                is None)
            &&& (spec_unit_of_rat(normal) != (Vec3 { x: 0i64, y: 0i64, z: 0i64 }) && front_face
                ==> exists|xi: int|
                0 <= xi < FP_ONE as int && out.1 == Some(
                    Ray {
                        orig: spec_round_point(p),
                        dir: #[trigger] spec_diel_dir(
                            spec_unit_scaled(r_in.dir),
                            spec_unit_of_rat(normal),
                            FP_ONE as int,
                            ir as int,
                            xi,
                        ),
                    },
                ))
            &&& (spec_unit_of_rat(normal) != (Vec3 { x: 0i64, y: 0i64, z: 0i64 }) && !front_face
                ==> exists|xi: int|
                0 <= xi < FP_ONE as int && out.1 == Some(
                    Ray {
                        orig: spec_round_point(p),
                        dir: #[trigger] spec_diel_dir(
                            spec_unit_scaled(r_in.dir),
                            spec_unit_of_rat(normal),
                            ir as int,
                            FP_ONE as int,
                            xi,
                        ),
                    },
                ))
        },
        Material::Emissive(color, strength) => {
            &&& out.0.x as int == (color.x as int) * (strength as int) / (FP_ONE as int)
            &&& out.0.y as int == (color.y as int) * (strength as int) / (FP_ONE as int)
            &&& out.0.z as int == (color.z as int) * (strength as int) / (FP_ONE as int)
            &&& out.1 is None
        },
    }
    &&& match out.1 {
        Some(sr) => {
            &&& ray_ok(sr)
            &&& sr.orig == spec_round_point(p)
            &&& (m is Metal ==> rv_dot_v(normal, sr.dir) > 0)
        },
        None => true,
    }
}

impl Material {
    /// Scatters an incoming ray at a hit: the attenuation and, unless
    /// the path is absorbed, the scattered ray. The attenuation is
    /// exact (the texture sample, the metal albedo, white for a
    /// dielectric, `color * strength` for an emitter), and for some
    /// draw of the stated range the scattered direction is pinned
    /// exactly: diffuse is the unit normal plus a drawn unit vector
    /// (degenerate sums fall back to the normal and are never
    /// absorbed); metal is the fuzz-perturbed reflection, kept only if
    /// it leaves on the oriented-normal side; a dielectric always
    /// scatters (except for a degenerate zero normal), reflecting
    /// under total internal reflection or when the Schlick reflectance
    /// exceeds the drawn threshold, else refracting; an emitter never
    /// scatters. Every scattered ray starts at the rounded hit point
    /// and is within the ray budget.
    pub fn scatter(&self, r_in: &Ray, rec: &HitRecord, rng: &mut ThreadRng) -> (out: (
        Vec3,
        Option<Ray>,
    ))
        requires
            mat_wf(*self),
            ray_ok(*r_in),
            rec_wf(*rec),
        ensures
            scatter_admits(
                *self,
                *r_in,
                rec.p,
                rec.normal,
                rec.front_face,
                rec.u as int,
                rec.v as int,
                out,
            ),
    {
        match self {
            Material::Lambertian(tex) => {
                let origin = round_point(&rec.p);
                let nhat = unit_of_rat(&rec.normal);
                let rand = random_unit_vector(rng);
                let mut dir = nhat.add(&rand);
                if dir.x == 0 && dir.y == 0 && dir.z == 0 {
                    dir = nhat;
                }
                let att = tex.value(rec.u, rec.v, &rec.p);
                proof {
                    assert(dir == spec_lambertian_dir(spec_unit_of_rat(rec.normal), rand));
                }
                (att, Some(Ray { orig: origin, dir }))
            },
            Material::Metal(albedo, fuzz) => {
                let origin = round_point(&rec.p);
                let nhat = unit_of_rat(&rec.normal);
                if nhat.x == 0 && nhat.y == 0 && nhat.z == 0 {
                    return (*albedo, None);
                }
                proof {
                    lemma_norm_pos(nhat);
                }
                let vhat = unit_scaled(&r_in.dir);
                let reflected = reflect(&vhat, &nhat);
                let rand = random_unit_vector(rng);
                proof {
                    lemma_mul_bound(*fuzz as int, rand.x as int, FP_ONE as int, FP_ONE as int);
                    lemma_mul_bound(*fuzz as int, rand.y as int, FP_ONE as int, FP_ONE as int);
                    lemma_mul_bound(*fuzz as int, rand.z as int, FP_ONE as int, FP_ONE as int);
                }
                let fx = floor_div_i128((*fuzz as i128) * (rand.x as i128), FP_ONE as i128);
                let fy = floor_div_i128((*fuzz as i128) * (rand.y as i128), FP_ONE as i128);
                let fz = floor_div_i128((*fuzz as i128) * (rand.z as i128), FP_ONE as i128);
                let dir = Vec3 {
                    x: clamp_dir(reflected.x as i128 + fx),
                    y: clamp_dir(reflected.y as i128 + fy),
                    z: clamp_dir(reflected.z as i128 + fz),
                };
                let scattered = Ray { orig: origin, dir };
                proof {
                    assert(dir == spec_metal_dir(
                        spec_unit_scaled(r_in.dir),
                        spec_unit_of_rat(rec.normal),
                        *fuzz as int,
                        rand,
                    ));
                }
                if rec.normal.dot_vec_num(&dir) > 0 {
                    (*albedo, Some(scattered))
                } else {
                    (*albedo, None)
                }
            },
            Material::Dielectric(ir) => {
                let origin = round_point(&rec.p);
                let white = Vec3 { x: FP_ONE, y: FP_ONE, z: FP_ONE };
                let (en, ed): (i64, i64) = if rec.front_face {
                    (FP_ONE, *ir)
                } else {
                    (*ir, FP_ONE)
                };
                let nhat = unit_of_rat(&rec.normal);
                if nhat.x == 0 && nhat.y == 0 && nhat.z == 0 {
                    return (white, None);
                }
                proof {
                    lemma_norm_pos(nhat);
                }
                let vhat = unit_scaled(&r_in.dir);
                proof {
                    crate::vec3::lemma_dot_bound(vhat, nhat, FP_ONE as int, FP_ONE as int);
                }
                let d = vhat.dot(&nhat);
                let c0 = floor_div_i128(-d, FP_ONE as i128);
                let cos: i64 = if c0 > FP_ONE as i128 {
                    FP_ONE
                } else {
                    c0 as i64
                };
                proof {
                    lemma_mul_bound(cos as int, cos as int, 0x20_0000, 0x20_0000);
                }
                let cos2 = (cos as i128) * (cos as i128);
                let one2 = (FP_ONE as i128) * (FP_ONE as i128);
                let s2 = if cos2 >= one2 {
                    0
                } else {
                    one2 - cos2
                };
                let sin = isqrt_u128(s2 as u128) as i128;
                proof {
                    lemma_mul_bound(en as int, sin as int, 0x100_0000, 0x2_0000_0000_0000_0000);
                    lemma_mul_bound(dm_val(en, ed), dm_val(en, ed), 0x200_0000, 0x200_0000);
                    lemma_mul_bound(dp_val(en, ed), dp_val(en, ed), 0x200_0000, 0x200_0000);
                    assert(dp_val(en, ed) * dp_val(en, ed) > 0) by (nonlinear_arith)
                        requires
                            dp_val(en, ed) > 0,
                    ;
                }
                let cannot_refract = (en as i128) * sin > (ed as i128) * (FP_ONE as i128);
                let dm = (ed - en) as i128;
                let dp = (ed + en) as i128;
                proof {
                    lemma_mul_bound(
                        (dm * dm) as int,
                        FP_ONE as int,
                        0x4_0000_0000_0000,
                        FP_ONE as int,
                    );
                }
                let r0 = floor_div_i128(dm * dm * (FP_ONE as i128), dp * dp);
                proof {
                    assert(dm * dm >= 0) by (nonlinear_arith);
                    assert(dm * dm <= dp * dp) by (nonlinear_arith)
                        requires
                            -(dp as int) <= dm as int <= dp as int,
                            dp as int > 0,
                    ;
                    assert((dm as int) * (dm as int) * 65536 <= (dp as int) * (dp as int)
                        * 65536) by (nonlinear_arith)
                        requires
                            (dm as int) * (dm as int) <= (dp as int) * (dp as int),
                    ;
                    assert(r0 as int <= 65536) by (nonlinear_arith)
                        requires
                            r0 as int == ((dm as int) * (dm as int) * 65536) / ((dp as int) * (
                            dp as int)),
                            (dm as int) * (dm as int) * 65536 <= (dp as int) * (dp as int)
                                * 65536,
                            (dp as int) * (dp as int) > 0,
                    ;
                }
                let x1 = (FP_ONE as i128) - (cos as i128);
                proof {
                    lemma_mul_bound(x1 as int, x1 as int, 0x4_0000, 0x4_0000);
                    lemma_mul_bound(
                        (x1 * x1) as int,
                        (x1 * x1) as int,
                        0x10_0000_0000,
                        0x10_0000_0000,
                    );
                    lemma_mul_bound(
                        ((x1 * x1) * (x1 * x1)) as int,
                        x1 as int,
                        0x100_0000_0000_0000_0000,
                        0x4_0000,
                    );
                    lemma_mul_bound(
                        (FP_ONE as int) - r0 as int,
                        (((x1 * x1) * (x1 * x1)) * x1) as int,
                        0x2_0000,
                        0x4_0000_0000_0000_0000_0000_0000,
                    );
                }
                let x5 = ((x1 * x1) * (x1 * x1)) * x1;
                let one5 = one2 * one2 * (FP_ONE as i128);
                let refl = r0 + floor_div_i128(((FP_ONE as i128) - r0) * x5, one5);
                let xi = rng_range_i64(rng, 0, FP_ONE);
                let dir = if cannot_refract || refl > xi as i128 {
                    reflect(&vhat, &nhat)
                } else {
                    refract(&vhat, &nhat, en, ed)
                };
                proof {
                    assert(cos as int == spec_diel_cos(vhat, nhat));
                    if s2 == 0 {
                        assert(sin == 0) by (nonlinear_arith)
                            requires
                                sin as int >= 0,
                                (sin as int) * (sin as int) <= 0,
                        ;
                    } else {
                        crate::frac::lemma_sqrt_floor_unique(s2 as int, sin as int);
                    }
                    assert(sin as int == spec_diel_sin(cos as int));
                    assert(cannot_refract == spec_diel_cannot(cos as int, en as int, ed as int));
                    assert(refl as int == spec_schlick(cos as int, en as int, ed as int));
                    assert(dir == spec_diel_dir(vhat, nhat, en as int, ed as int, xi as int));
                }
                (white, Some(Ray { orig: origin, dir }))
            },
            Material::Emissive(color, strength) => {
                proof {
                    lemma_mul_bound(color.x as int, *strength as int, FP_ONE as int, 0x100_0000);
                    lemma_mul_bound(color.y as int, *strength as int, FP_ONE as int, 0x100_0000);
                    lemma_mul_bound(color.z as int, *strength as int, FP_ONE as int, 0x100_0000);
                }
                let c = Vec3 {
                    x: floor_div_i128((color.x as i128) * (*strength as i128), FP_ONE as i128)
                        as i64,
                    y: floor_div_i128((color.y as i128) * (*strength as i128), FP_ONE as i128)
                        as i64,
                    z: floor_div_i128((color.z as i128) * (*strength as i128), FP_ONE as i128)
                        as i64,
                };
                (c, None)
            },
        }
    }
}

/// The difference of the refraction-ratio parts.
spec fn dm_val(en: i64, ed: i64) -> int {
    ed as int - en as int
}

/// The sum of the refraction-ratio parts.
spec fn dp_val(en: i64, ed: i64) -> int {
    ed as int + en as int
}

/// A vector with a nonzero component has a positive squared norm.
proof fn lemma_norm_pos(v: Vec3)
    requires
        !(v.x == 0 && v.y == 0 && v.z == 0),
    ensures
        spec_norm_sq(v) > 0,
{
    assert(spec_norm_sq(v) > 0) by (nonlinear_arith)
        requires
            !(v.x as int == 0 && v.y as int == 0 && v.z as int == 0),
    ;
}

/// The unit scaling of an exact rational direction: shrink the
/// numerators to integers by the common denominator (clamped into the
/// computation budget), then scale to fixed-point unit length.
fn unit_of_rat(v: &RatVec3) -> (r: Vec3)
    requires
        rv_ok(*v),
    ensures
        r == spec_unit_of_rat(*v),
        vec_in(r, FP_ONE as int),
{
    let x = clamp_wide_dir(floor_div_i128(v.nx, v.d));
    let y = clamp_wide_dir(floor_div_i128(v.ny, v.d));
    let z = clamp_wide_dir(floor_div_i128(v.nz, v.d));
    let w = Vec3 { x, y, z };
    unit_scaled(&w)
}

/// Clamps a wide value into the unit-scaling budget.
fn clamp_wide_dir(x: i128) -> (r: i64)
    ensures
        r as int == spec_clamp_mag(x as int, 0x4000_0000_0000),
        -0x4000_0000_0000 <= r <= 0x4000_0000_0000,
{
    if x < -0x4000_0000_0000 {
        -0x4000_0000_0000
    } else if x > 0x4000_0000_0000 {
        0x4000_0000_0000
    } else {
        x as i64
    }
}

/// Clamps a wide value into the ray-direction budget.
fn clamp_dir(x: i128) -> (r: i64)
    ensures
        r as int == spec_clamp_mag(x as int, COORD_MAX as int),
        -COORD_MAX <= r <= COORD_MAX,
{
    if x < -(COORD_MAX as i128) {
        -COORD_MAX
    } else if x > COORD_MAX as i128 {
        COORD_MAX
    } else {
        x as i64
    }
}

/// Value equality of materials: structural, with Lambertian textures
/// compared by value (see [`crate::texture::tex_like`]).
pub open spec fn mat_like(a: Material, b: Material) -> bool {
    match (a, b) {
        (Material::Lambertian(x), Material::Lambertian(y)) => crate::texture::tex_like(x, y),
        (Material::Metal(ca, fa), Material::Metal(cb, fb)) => ca == cb && fa == fb,
        (Material::Dielectric(x), Material::Dielectric(y)) => x == y,
        (Material::Emissive(ca, sa), Material::Emissive(cb, sb)) => ca == cb && sa == sb,
        _ => false,
    }
}

/// A deep copy of a material: equal in value to the source.
pub fn clone_material(m: &Material) -> (r: Material)
    ensures
        mat_like(r, *m),
        mat_wf(*m) ==> mat_wf(r),
{
    match m {
        Material::Lambertian(tex) => Material::Lambertian(crate::texture::clone_texture(tex)),
        Material::Metal(albedo, fuzz) => Material::Metal(*albedo, *fuzz),
        Material::Dielectric(ir) => Material::Dielectric(*ir),
        Material::Emissive(color, strength) => Material::Emissive(*color, *strength),
    }
}

/// A deep copy of an optional material binding, equal in value.
pub fn clone_mat(m: &Option<Material>) -> (r: Option<Material>)
    ensures
        match (m, r) {
            (Some(a), Some(b)) => mat_like(b, *a) && (mat_wf(*a) ==> mat_wf(b)),
            (None, None) => true,
            _ => false,
        },
{
    match m {
        Some(mm) => Some(clone_material(mm)),
        None => None,
    }
}

/// The diagnostic fallback material, as a spec value: a pink and black
/// world-space checker.
pub open spec fn spec_default_material() -> Material {
    Material::Lambertian(
        Texture::CheckerTexture(
            Box::new(
                CheckerTexture {
                    scale: 65536i64,
                    even: Texture::SolidColor(Vec3 { x: 65536i64, y: 0i64, z: 56559i64 }),
                    odd: Texture::SolidColor(Vec3 { x: 0i64, y: 0i64, z: 0i64 }),
                },
            ),
        ),
    )
}

impl Default for Material {
    /// The diagnostic fallback: a pink and black checker, as used where
    /// a mesh face carries no material of its own.
    fn default() -> (r: Material)
        ensures
            mat_wf(r),
            r == spec_default_material(),
    {
        let pink = Texture::new_solid_rgb(FP_ONE, 0, 56559);
        let black = Texture::new_solid_rgb(0, 0, 0);
        let checkered = Texture::new_checkered(FP_ONE, pink, black);
        Material::Lambertian(checkered)
    }
}

} // verus!
