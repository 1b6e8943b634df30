//! Spheres and their exact ray intersection.
//!
//! For a ray `o + t d` and a sphere `(c, rad)` the quadratic
//! `|o + t d - c|^2 = rad^2` has coefficients `a = d . d`,
//! `hb = (o - c) . d`, `c2 = |o - c|^2 - rad^2` and discriminant
//! `disc = hb^2 - a c2`. With `s` the integer floor square root of
//! `disc`, the two candidate parameters are the exact rationals
//! `(-hb - s) / a` and `(-hb + s) / a`; `hit` returns the near one if
//! it lies in the open span, else the far one, else nothing.

use vstd::prelude::*;
use crate::frac::{Rat, Frac, frac_ok, rat_in_open, lemma_mul_bound, isqrt_u128, floor_div_i128,
    FRAC_MAX, sqrt_floor, lemma_sqrt_floor_exists, lemma_sqrt_floor_unique};
use crate::vec3::{Vec3, RatVec3, rv_ok, vec_in, spec_norm_sq, RATV_MAX, lemma_dot_bound};
use crate::interval::{Interval, RaySpan, span_ok};
use crate::aabb::AABB;
use crate::ray::{Ray, ray_ok, spec_at_axis, rat_in_closed, BOX_MAX};
use crate::hittable::{HitRecord, rv_dot_v, rec_wf};
use crate::material::{Material, mat_wf};
use crate::{COORD_MAX, FP_ONE};

verus! {

/// A sphere: center, radius, material, and its precomputed box.
pub struct Sphere {
    pub center: Vec3,
    pub radius: i64,
    pub mat: Material,
    pub bbox: AABB,
}

/// Well-formedness of a sphere: coordinates within budget, positive
/// radius, and the box as built by `new`.
pub open spec fn sphere_wf(s: Sphere) -> bool {
    &&& vec_in(s.center, COORD_MAX as int)
    &&& 0 < s.radius <= COORD_MAX
    &&& mat_wf(s.mat)
    &&& s.bbox == sphere_bbox(s.center, s.radius)
}

/// The tightest box around a sphere: `center +- radius` on each axis.
pub open spec fn sphere_bbox(c: Vec3, rad: i64) -> AABB {
    AABB {
        x: Interval { min: (c.x - rad) as i64, max: (c.x + rad) as i64 },
        y: Interval { min: (c.y - rad) as i64, max: (c.y + rad) as i64 },
        z: Interval { min: (c.z - rad) as i64, max: (c.z + rad) as i64 },
    }
}

/// The squared norm of the ray direction.
pub open spec fn sph_a(r: Ray) -> int {
    spec_norm_sq(r.dir)
}

/// Half the linear coefficient: `(o - c) . d`.
pub open spec fn sph_hb(s: Sphere, r: Ray) -> int {
    (r.orig.x - s.center.x) * (r.dir.x as int) + (r.orig.y - s.center.y) * (r.dir.y as int) + (
    r.orig.z - s.center.z) * (r.dir.z as int)
}

/// The constant coefficient: `|o - c|^2 - rad^2`.
pub open spec fn sph_c2(s: Sphere, r: Ray) -> int {
    (r.orig.x - s.center.x) * (r.orig.x - s.center.x) + (r.orig.y - s.center.y) * (r.orig.y
        - s.center.y) + (r.orig.z - s.center.z) * (r.orig.z - s.center.z) - (s.radius as int) * (
    s.radius as int)
}

/// The discriminant of the sphere quadratic.
pub open spec fn sph_disc(s: Sphere, r: Ray) -> int {
    sph_hb(s, r) * sph_hb(s, r) - sph_a(r) * sph_c2(s, r)
}

/// The near root, using the floor square root of the discriminant.
pub open spec fn sph_near(s: Sphere, r: Ray) -> Rat {
    Rat { n: -sph_hb(s, r) - sqrt_floor(sph_disc(s, r)), d: sph_a(r) }
}

/// The far root.
pub open spec fn sph_far(s: Sphere, r: Ray) -> Rat {
    Rat { n: -sph_hb(s, r) + sqrt_floor(sph_disc(s, r)), d: sph_a(r) }
}

/// The parameter at which `hit` reports an intersection: the near root
/// if it lies in the open span, else the far root, else nothing; no
/// intersection for a degenerate ray or a negative discriminant.
pub open spec fn sph_hit_t(s: Sphere, r: Ray, lo: Rat, hi: Rat) -> Option<Rat> {
    if sph_a(r) <= 0 || sph_disc(s, r) < 0 {
        None
    } else if rat_in_open(sph_near(s, r), lo, hi) {
        Some(sph_near(s, r))
    } else if rat_in_open(sph_far(s, r), lo, hi) {
        Some(sph_far(s, r))
    } else {
        None
    }
}

/// The outward normal direction at a point: `p - center`, exact.
pub open spec fn sph_outward(s: Sphere, p: RatVec3) -> RatVec3 {
    RatVec3 {
        nx: (p.nx - s.center.x * p.d) as i128,
        ny: (p.ny - s.center.y * p.d) as i128,
        nz: (p.nz - s.center.z * p.d) as i128,
        d: p.d,
    }
}

/// The longitude chart: the diamond angle of `(x, -z)`, given a half
/// turn and folded to `[0, FP_ONE)`. This deviates from the reference
/// chart `(atan2(-z, x) + pi) / 2pi`, which is not computable in exact
/// integer arithmetic: the two agree at the four axes and are both
/// monotone between them, but differ away from the axes (by up to
/// about four percent of a turn). Only texture-lookup positions are
/// affected.
pub open spec fn spec_sphere_u(x: int, z: int) -> int {
    let zz = -z;
    if x == 0 && zz == 0 {
        FP_ONE as int / 2
    } else {
        let den = (if x >= 0 {
            x
        } else {
            -x
        }) + (if zz >= 0 {
            zz
        } else {
            -zz
        });
        let (q, num): (int, int) = if x > 0 && zz >= 0 {
            (0, zz)
        } else if x <= 0 && zz > 0 {
            (1, -x)
        } else if x < 0 && zz <= 0 {
            (2, -zz)
        } else {
            (3, x)
        };
        let q2 = if q < 2 {
            q + 2
        } else {
            q - 2
        };
        (((q2 * den + num) * 0x4000) / den)
    }
}

/// The latitude chart: linear in the normalized height, `(1 + y/r)/2`,
/// clamped. This deviates from the reference chart `acos(-y/r) / pi`,
/// which is not computable in exact integer arithmetic: the two agree
/// at the poles and the equator, but the linear chart differs between
/// them (by up to about eight percent). Only texture-lookup positions
/// are affected.
pub open spec fn spec_sphere_v(ny: int, rd: int) -> int {
    let c = if ny < -rd {
        -rd
    } else if ny > rd {
        rd
    } else {
        ny
    };
    ((rd + c) * 0x8000) / rd
}

/// Distribution of one factor over a three-term sum.
proof fn lemma_dist3(a: int, x: int, y: int, z: int)
    ensures
        a * (x + y + z) == a * x + a * y + a * z,
{
    assert(a * (x + y + z) == a * x + a * y + a * z) by (nonlinear_arith);
}

/// One squared term of the hit-point expansion.
proof fn lemma_sph_sq_comp(a: int, n: int, x: int, y: int)
    ensures
        (x * a + n * y) * (x * a + n * y) == (a * a) * (x * x) + 2 * ((a * n) * (x * y)) + (n * n)
            * (y * y),
{
    let p = x * a;
    let q = n * y;
    assert((p + q) * (p + q) == p * p + 2 * (p * q) + q * q) by (nonlinear_arith);
    assert(p * p == (a * a) * (x * x)) by (nonlinear_arith)
        requires
            p == x * a,
    ;
    assert(p * q == (a * n) * (x * y)) by (nonlinear_arith)
        requires
            p == x * a,
            q == n * y,
    ;
    assert(q * q == (n * n) * (y * y)) by (nonlinear_arith)
        requires
            q == n * y,
    ;
}

/// The squared distance from a rational point to the sphere's center,
/// as the sum of squared numerators over the point's denominator.
pub open spec fn sph_pc_sq(s: Sphere, p: RatVec3) -> int {
    let ex = p.nx as int - (s.center.x as int) * (p.d as int);
    let ey = p.ny as int - (s.center.y as int) * (p.d as int);
    let ez = p.nz as int - (s.center.z as int) * (p.d as int);
    ex * ex + ey * ey + ez * ez
}

/// The exact squared distance of a reported root's point from the
/// center: at most the squared radius, and below it by at most
/// `2 s / a` (at the denominator's scale), `s` the floor square root
/// of the discriminant — the floor rounding only pulls hits inward.
pub proof fn lemma_sphere_dist_bounds(sp: Sphere, r: Ray, t: Rat)
    requires
        sph_a(r) > 0,
        sph_disc(sp, r) >= 0,
        t == sph_near(sp, r) || t == sph_far(sp, r),
        0 < sp.radius <= COORD_MAX,
        vec_in(sp.center, COORD_MAX as int),
        vec_in(r.orig, crate::ORIGIN_MAX as int),
    ensures
        ({
            let a = t.d;
            let n = t.n;
            let rad = sp.radius as int;
            let srt = sqrt_floor(sph_disc(sp, r));
            let ex = (r.orig.x - sp.center.x) * a + n * (r.dir.x as int);
            let ey = (r.orig.y - sp.center.y) * a + n * (r.dir.y as int);
            let ez = (r.orig.z - sp.center.z) * a + n * (r.dir.z as int);
            &&& ex * ex + ey * ey + ez * ez <= (a * rad) * (a * rad)
            &&& ex * ex + ey * ey + ez * ez >= (a * rad) * (a * rad) - 2 * a * srt
        }),
{
    let a = sph_a(r);
    let hb = sph_hb(sp, r);
    let c2 = sph_c2(sp, r);
    let disc = sph_disc(sp, r);
    let rad = sp.radius as int;
    lemma_sqrt_floor_exists(disc);
    let srt = sqrt_floor(disc);
    let n = t.n;
    let ocx = r.orig.x - sp.center.x;
    let ocy = r.orig.y - sp.center.y;
    let ocz = r.orig.z - sp.center.z;
    let dx = r.dir.x as int;
    let dy = r.dir.y as int;
    let dz = r.dir.z as int;
    let socsq = ocx * ocx + ocy * ocy + ocz * ocz;
    lemma_sph_sq_comp(a, n, ocx, dx);
    lemma_sph_sq_comp(a, n, ocy, dy);
    lemma_sph_sq_comp(a, n, ocz, dz);
    lemma_dist3(a * a, ocx * ocx, ocy * ocy, ocz * ocz);
    lemma_dist3(a * n, ocx * dx, ocy * dy, ocz * dz);
    lemma_dist3(n * n, dx * dx, dy * dy, dz * dz);
    assert(hb == ocx * dx + ocy * dy + ocz * dz);
    assert(a == dx * dx + dy * dy + dz * dz);
    assert((a * a) * socsq == (a * a) * (ocx * ocx) + (a * a) * (ocy * ocy) + (a * a) * (ocz
        * ocz));
    assert((a * n) * hb == (a * n) * (ocx * dx) + (a * n) * (ocy * dy) + (a * n) * (ocz * dz));
    assert((n * n) * a == (n * n) * (dx * dx) + (n * n) * (dy * dy) + (n * n) * (dz * dz));
    assert((n * n) * a + 2 * ((a * n) * hb) == a * (srt * srt - hb * hb)) by (nonlinear_arith)
        requires
            n == -hb - srt || n == -hb + srt,
    ;
    assert((a * a) * socsq + a * (srt * srt - hb * hb) == a * (a * (rad * rad)) + a * (srt * srt
        - disc)) by (nonlinear_arith)
        requires
            disc == hb * hb - a * c2,
            c2 == socsq - rad * rad,
    ;
    assert(a * (srt * srt - disc) <= 0) by (nonlinear_arith)
        requires
            a > 0,
            srt * srt <= disc,
    ;
    assert(a * (srt * srt - disc) >= -(2 * a * srt)) by (nonlinear_arith)
        requires
            a > 0,
            srt * srt <= disc,
            disc < (srt + 1) * (srt + 1),
            srt >= 0,
    ;
    assert(a * (a * (rad * rad)) == (a * rad) * (a * rad)) by (nonlinear_arith);
}

/// Both roots the intersection reports lie inside the closed sphere:
/// with `s` the floor square root of the discriminant, the computed
/// hit point satisfies `|p - c|^2 <= rad^2` exactly, so it lies inside
/// the sphere's bounding box on every axis. (The floor rounding can
/// only pull the reported roots inward, never outside the sphere.)
pub proof fn lemma_sphere_hit_inside(sp: Sphere, r: Ray, t: Rat)
    requires
        sph_a(r) > 0,
        sph_disc(sp, r) >= 0,
        t == sph_near(sp, r) || t == sph_far(sp, r),
        0 < sp.radius <= COORD_MAX,
        vec_in(sp.center, COORD_MAX as int),
        vec_in(r.orig, crate::ORIGIN_MAX as int),
    ensures
        rat_in_closed(
            spec_at_axis(r.orig.x as int, r.dir.x as int, t),
            sphere_bbox(sp.center, sp.radius).x,
        ),
        rat_in_closed(
            spec_at_axis(r.orig.y as int, r.dir.y as int, t),
            sphere_bbox(sp.center, sp.radius).y,
        ),
        rat_in_closed(
            spec_at_axis(r.orig.z as int, r.dir.z as int, t),
            sphere_bbox(sp.center, sp.radius).z,
        ),
{
    let a = sph_a(r);
    let hb = sph_hb(sp, r);
    let c2 = sph_c2(sp, r);
    let disc = sph_disc(sp, r);
    let rad = sp.radius as int;
    lemma_sqrt_floor_exists(disc);
    let s = sqrt_floor(disc);
    let n = t.n;
    let ocx = r.orig.x - sp.center.x;
    let ocy = r.orig.y - sp.center.y;
    let ocz = r.orig.z - sp.center.z;
    let dx = r.dir.x as int;
    let dy = r.dir.y as int;
    let dz = r.dir.z as int;
    let socsq = ocx * ocx + ocy * ocy + ocz * ocz;
    let ex = ocx * a + n * dx;
    let ey = ocy * a + n * dy;
    let ez = ocz * a + n * dz;
    // expand the squared distance numerator
    lemma_sph_sq_comp(a, n, ocx, dx);
    lemma_sph_sq_comp(a, n, ocy, dy);
    lemma_sph_sq_comp(a, n, ocz, dz);
    lemma_dist3(a * a, ocx * ocx, ocy * ocy, ocz * ocz);
    lemma_dist3(a * n, ocx * dx, ocy * dy, ocz * dz);
    lemma_dist3(n * n, dx * dx, dy * dy, dz * dz);
    assert(hb == ocx * dx + ocy * dy + ocz * dz);
    assert(a == dx * dx + dy * dy + dz * dz);
    assert((a * a) * socsq == (a * a) * (ocx * ocx) + (a * a) * (ocy * ocy) + (a * a) * (ocz
        * ocz));
    assert((a * n) * hb == (a * n) * (ocx * dx) + (a * n) * (ocy * dy) + (a * n) * (ocz * dz));
    assert((n * n) * a == (n * n) * (dx * dx) + (n * n) * (dy * dy) + (n * n) * (dz * dz));
    assert(ex * ex + ey * ey + ez * ez == (a * a) * socsq + 2 * ((a * n) * hb) + (n * n) * a);
    // the root identity: n^2 + 2 n hb == s^2 - hb^2
    assert((n * n) * a + 2 * ((a * n) * hb) == a * (s * s - hb * hb)) by (nonlinear_arith)
        requires
            n == -hb - s || n == -hb + s,
    ;
    // substitute the discriminant
    assert((a * a) * socsq + a * (s * s - hb * hb) == a * (a * (rad * rad)) + a * (s * s - disc))
        by (nonlinear_arith)
        requires
            disc == hb * hb - a * c2,
            c2 == socsq - rad * rad,
    ;
    assert(a * (s * s - disc) <= 0) by (nonlinear_arith)
        requires
            a > 0,
            s * s <= disc,
    ;
    assert(a * (a * (rad * rad)) == (a * rad) * (a * rad)) by (nonlinear_arith);
    let b = a * rad;
    assert(b > 0) by (nonlinear_arith)
        requires
            a > 0,
            rad > 0,
            b == a * rad,
    ;
    assert(ey * ey >= 0 && ez * ez >= 0 && ex * ex >= 0) by (nonlinear_arith);
    assert(-b <= ex <= b && -b <= ey <= b && -b <= ez <= b) by (nonlinear_arith)
        requires
            ex * ex + ey * ey + ez * ez <= b * b,
            ex * ex >= 0,
            ey * ey >= 0,
            ez * ez >= 0,
            b > 0,
    ;
    // per-axis membership: (c - rad) * a <= o * a + n * d <= (c + rad) * a
    assert((sp.center.x - rad) * a <= r.orig.x * a + n * dx <= (sp.center.x + rad) * a)
        by (nonlinear_arith)
        requires
            -(a * rad) <= (r.orig.x - sp.center.x) * a + n * dx <= a * rad,
    ;
    assert((sp.center.y - rad) * a <= r.orig.y * a + n * dy <= (sp.center.y + rad) * a)
        by (nonlinear_arith)
        requires
            -(a * rad) <= (r.orig.y - sp.center.y) * a + n * dy <= a * rad,
    ;
    assert((sp.center.z - rad) * a <= r.orig.z * a + n * dz <= (sp.center.z + rad) * a)
        by (nonlinear_arith)
        requires
            -(a * rad) <= (r.orig.z - sp.center.z) * a + n * dz <= a * rad,
    ;
}

impl Sphere {
    /// Builds a sphere with its bounding box.
    pub fn new(center: Vec3, radius: i64, mat: Material) -> (s: Sphere)
        requires
            vec_in(center, COORD_MAX as int),
            0 < radius <= COORD_MAX,
            mat_wf(mat),
        ensures
            sphere_wf(s),
            s.center == center,
            s.radius == radius,
            s.mat == mat,
    {
        let bbox = AABB {
            x: Interval { min: center.x - radius, max: center.x + radius },
            y: Interval { min: center.y - radius, max: center.y + radius },
            z: Interval { min: center.z - radius, max: center.z + radius },
        };
        Sphere { center, radius, mat, bbox }
    }

    /// The surface chart at an outward direction `(w, rad * den)`:
    /// diamond-angle longitude and linear latitude, in fixed point —
    /// an exactly-computable deviation from the reference
    /// `atan2`/`acos` chart (see the chart spec functions).
    pub fn uv(w: &RatVec3, radius: i64) -> (uv: (i64, i64))
        requires
            rv_ok(*w),
            0 < radius <= COORD_MAX,
        ensures
            uv.0 as int == spec_sphere_u(w.nx as int, w.nz as int),
            uv.1 as int == spec_sphere_v(w.ny as int, (radius as int) * (w.d as int)),
            0 <= uv.0 <= FP_ONE,
            0 <= uv.1 <= FP_ONE,
    {
        proof {
            lemma_mul_bound(radius as int, w.d as int, COORD_MAX as int, FRAC_MAX as int);
            assert((radius as int) * (w.d as int) > 0) by (nonlinear_arith)
                requires
                    radius as int > 0,
                    w.d as int > 0,
            ;
        }
        let x = w.nx;
        let zz = -w.nz;
        let u: i64 = if x == 0 && zz == 0 {
            FP_ONE / 2
        } else {
            let ax = if x >= 0 {
                x
            } else {
                -x
            };
            let az = if zz >= 0 {
                zz
            } else {
                -zz
            };
            let den = ax + az;
            let (q, num): (i128, i128) = if x > 0 && zz >= 0 {
                (0, zz)
            } else if x <= 0 && zz > 0 {
                (1, -x)
            } else if x < 0 && zz <= 0 {
                (2, -zz)
            } else {
                (3, x)
            };
            let q2 = if q < 2 {
                q + 2
            } else {
                q - 2
            };
            proof {
                lemma_mul_bound(q2 as int, den as int, 3, 2 * RATV_MAX as int);
                lemma_mul_bound(
                    (q2 * den + num) as int,
                    0x4000,
                    8 * RATV_MAX as int + 2 * RATV_MAX as int,
                    0x4000,
                );
            }
            let uw = floor_div_i128((q2 * den + num) * 0x4000, den);
            proof {
                assert(0 <= ((q2 as int) * (den as int) + num as int) * 0x4000 / (den as int) <= FP_ONE)
                    by (nonlinear_arith)
                    requires
                        den as int > 0,
                        0 <= num as int <= den as int,
                        0 <= q2 as int <= 3,
                ;
            }
            uw as i64
        };
        let rd = (radius as i128) * w.d;
        let c = if w.ny < -rd {
            -rd
        } else if w.ny > rd {
            rd
        } else {
            w.ny
        };
        let vw = floor_div_i128((rd + c) * 0x8000, rd);
        proof {
            assert(0 <= ((rd as int) + (c as int)) * 0x8000 / (rd as int) <= FP_ONE)
                by (nonlinear_arith)
                requires
                    rd as int > 0,
                    -(rd as int) <= c as int <= rd as int,
            ;
        }
        let v = vw as i64;
        (u, v)
    }

    /// Intersects the ray with the sphere over the open span: the
    /// nearest root in range, with the exact hit point and the exact
    /// outward normal `p - center`, oriented against the ray.
    pub fn hit<'a>(&'a self, r: &Ray, ray_t: &RaySpan) -> (res: Option<HitRecord<'a>>)
        requires
            sphere_wf(*self),
            ray_ok(*r),
            span_ok(*ray_t),
        ensures
            match res {
                None => sph_hit_t(*self, *r, ray_t.min@, ray_t.max@) is None,
                Some(h) => {
                    &&& sph_hit_t(*self, *r, ray_t.min@, ray_t.max@) == Some(h.t@)
                    &&& frac_ok(h.t)
                    &&& rec_wf(h)
                    &&& h.p@.x == spec_at_axis(r.orig.x as int, r.dir.x as int, h.t@)
                    &&& h.p@.y == spec_at_axis(r.orig.y as int, r.dir.y as int, h.t@)
                    &&& h.p@.z == spec_at_axis(r.orig.z as int, r.dir.z as int, h.t@)
                    &&& h.u as int == spec_sphere_u(
                        sph_outward(*self, h.p).nx as int,
                        sph_outward(*self, h.p).nz as int,
                    )
                    &&& h.v as int == spec_sphere_v(
                        sph_outward(*self, h.p).ny as int,
                        (self.radius as int) * (h.p.d as int),
                    )
                    &&& h.front_face == (rv_dot_v(sph_outward(*self, h.p), r.dir) < 0)
                    &&& h.normal == if h.front_face {
                        sph_outward(*self, h.p)
                    } else {
                        sph_outward(*self, h.p).spec_neg()
                    }
                    &&& rv_dot_v(h.normal, r.dir) <= 0
                    &&& sph_pc_sq(*self, h.p) <= ((h.p.d as int) * (self.radius as int)) * ((
                    h.p.d as int) * (self.radius as int))
                    &&& sph_pc_sq(*self, h.p) >= ((h.p.d as int) * (self.radius as int)) * ((
                    h.p.d as int) * (self.radius as int)) - 2 * (h.p.d as int) * sqrt_floor(
                        sph_disc(*self, *r),
                    )
                    &&& h.material == Some(&self.mat)
                    &&& mat_wf(self.mat)
                    &&& crate::hittable::prim_mat_src(
                        crate::hittable::Primitive::Sphere(*self),
                        self.mat,
                    )
                },
            },
    {
        let oc = r.orig.sub(&self.center);
        let a = r.dir.norm_squared();
        if a == 0 {
            return None;
        }
        proof {
            lemma_dot_bound(oc, r.dir, 0x140_0000, COORD_MAX as int);
            lemma_dot_bound(oc, oc, 0x140_0000, 0x140_0000);
            lemma_dot_bound(r.dir, r.dir, COORD_MAX as int, COORD_MAX as int);
            lemma_mul_bound(self.radius as int, self.radius as int, COORD_MAX as int, COORD_MAX as int);
        }
        let half_b = oc.dot(&r.dir);
        let c2 = oc.norm_squared() - (self.radius as i128) * (self.radius as i128);
        proof {
            lemma_mul_bound(half_b as int, half_b as int, 0x2000_0000_0000, 0x2000_0000_0000);
            lemma_mul_bound(a as int, c2 as int, 0x40_0000_0000, 0x8_0000_0000_0000);
        }
        let discriminant = half_b * half_b - a * c2;
        if discriminant < 0 {
            return None;
        }
        let sq = isqrt_u128(discriminant as u128);
        proof {
            assert(sq * sq <= discriminant as u128);
            assert(sq <= 0x1_0000_0000_0000u128) by (nonlinear_arith)
                requires
                    sq * sq <= discriminant as u128,
                    discriminant as u128 <= 0x1_0000_0000_0000_0000_0000_0000u128,
            ;
            lemma_sqrt_floor_unique(discriminant as int, sq as int);
        }
        let sqi = sq as i128;
        let near = Frac { n: -half_b - sqi, d: a };
        let far = Frac { n: -half_b + sqi, d: a };
        let root = if ray_t.min.lt(&near) && near.lt(&ray_t.max) {
            near
        } else if ray_t.min.lt(&far) && far.lt(&ray_t.max) {
            far
        } else {
            return None;
        };
        let p = r.at(&root);
        proof {
            lemma_mul_bound(self.center.x as int, p.d as int, COORD_MAX as int, FRAC_MAX as int);
            lemma_mul_bound(self.center.y as int, p.d as int, COORD_MAX as int, FRAC_MAX as int);
            lemma_mul_bound(self.center.z as int, p.d as int, COORD_MAX as int, FRAC_MAX as int);
            lemma_sphere_dist_bounds(*self, *r, root@);
            assert((p.nx as int) - (self.center.x as int) * (p.d as int) == (r.orig.x
                - self.center.x) * (root.d as int) + (root.n as int) * (r.dir.x as int))
                by (nonlinear_arith)
                requires
                    p.nx as int == (r.orig.x as int) * (root.d as int) + (root.n as int) * (
                    r.dir.x as int),
                    p.d == root.d,
            ;
            assert((p.ny as int) - (self.center.y as int) * (p.d as int) == (r.orig.y
                - self.center.y) * (root.d as int) + (root.n as int) * (r.dir.y as int))
                by (nonlinear_arith)
                requires
                    p.ny as int == (r.orig.y as int) * (root.d as int) + (root.n as int) * (
                    r.dir.y as int),
                    p.d == root.d,
            ;
            assert((p.nz as int) - (self.center.z as int) * (p.d as int) == (r.orig.z
                - self.center.z) * (root.d as int) + (root.n as int) * (r.dir.z as int))
                by (nonlinear_arith)
                requires
                    p.nz as int == (r.orig.z as int) * (root.d as int) + (root.n as int) * (
                    r.dir.z as int),
                    p.d == root.d,
            ;
        }
        let outward = RatVec3 {
            nx: p.nx - (self.center.x as i128) * p.d,
            ny: p.ny - (self.center.y as i128) * p.d,
            nz: p.nz - (self.center.z as i128) * p.d,
            d: p.d,
        };
        let uv = Sphere::uv(&outward, self.radius);
        Some(HitRecord::new(p, outward, root, r, Some(&self.mat), uv.0, uv.1))
    }

    /// The precomputed bounding box.
    pub fn bounding_box(&self) -> (b: AABB)
        ensures
            b == self.bbox,
    {
        self.bbox
    }
}

} // verus!
