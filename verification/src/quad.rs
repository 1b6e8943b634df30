//! Planar quads and their exact ray intersection.
//!
//! A quad is an anchor `q` and two edge vectors `u`, `v`. A ray meets
//! its plane where the linear system `alpha u + beta v - t d = o - q`
//! has a solution; Cramer's rule gives `t`, `alpha` and `beta` as exact
//! ratios of integer determinants. The quad is hit iff
//! `0 <= alpha < 1` and `0 <= beta < 1`, decided exactly.

use vstd::prelude::*;
use crate::frac::{Rat, Frac, frac_ok, rat_in_open, lemma_mul_bound, floor_div_i128};
use crate::vec3::{Vec3, RatVec3, rv_ok, vec_in, spec_dot, spec_cross_x, spec_cross_y,
    spec_cross_z, lemma_dot_bound, lemma_cross_bound};
use crate::interval::{RaySpan, span_ok};
use crate::aabb::{AABB, pad_box};
use crate::ray::{Ray, ray_ok, spec_at_axis};
use crate::hittable::{HitRecord, rv_dot_v, rec_wf};
use crate::material::{Material, mat_wf};
use crate::{COORD_MAX, FP_ONE};

verus! {

/// A planar quad: anchor, edge vectors, precomputed unnormalized
/// normal `u x v`, material, and padded bounding box.
pub struct Quad {
    pub q: Vec3,
    pub u: Vec3,
    pub v: Vec3,
    pub normal: Vec3,
    pub mat: Material,
    pub bbox: AABB,
}

/// Well-formedness of a quad: coordinates within budget, normal and box
/// as built by `new`.
pub open spec fn quad_wf(qd: Quad) -> bool {
    &&& vec_in(qd.q, COORD_MAX as int)
    &&& vec_in(qd.u, COORD_MAX as int)
    &&& vec_in(qd.v, COORD_MAX as int)
    &&& mat_wf(qd.mat)
    &&& qd.normal.x as int == spec_cross_x(qd.u, qd.v)
    &&& qd.normal.y as int == spec_cross_y(qd.u, qd.v)
    &&& qd.normal.z as int == spec_cross_z(qd.u, qd.v)
    &&& qd.bbox == spec_quad_bbox(qd.q, qd.u, qd.v)
}

/// The quad's box: the diagonal box of `q` and `q + u + v`, padded.
pub open spec fn spec_quad_bbox(q: Vec3, u: Vec3, v: Vec3) -> AABB {
    let o = Vec3 {
        x: (q.x + u.x + v.x) as i64,
        y: (q.y + u.y + v.y) as i64,
        z: (q.z + u.z + v.z) as i64,
    };
    pad_box(AABB::spec_from_points(q, o))
}

/// The signed determinant `u . (d x v)` of the quad system: zero iff
/// the ray is parallel to the plane.
pub open spec fn quad_det(qd: Quad, r: Ray) -> int {
    spec_dot(
        qd.u,
        Vec3 {
            x: spec_cross_x(r.dir, qd.v) as i64,
            y: spec_cross_y(r.dir, qd.v) as i64,
            z: spec_cross_z(r.dir, qd.v) as i64,
        },
    )
}

/// Numerator of `alpha` (times the determinant sign).
pub open spec fn quad_alpha_num(qd: Quad, r: Ray) -> int {
    spec_dot(
        Vec3 {
            x: (r.orig.x - qd.q.x) as i64,
            y: (r.orig.y - qd.q.y) as i64,
            z: (r.orig.z - qd.q.z) as i64,
        },
        Vec3 {
            x: spec_cross_x(r.dir, qd.v) as i64,
            y: spec_cross_y(r.dir, qd.v) as i64,
            z: spec_cross_z(r.dir, qd.v) as i64,
        },
    )
}

/// Numerator of `beta` (times the determinant sign).
pub open spec fn quad_beta_num(qd: Quad, r: Ray) -> int {
    let tv = Vec3 {
        x: (r.orig.x - qd.q.x) as i64,
        y: (r.orig.y - qd.q.y) as i64,
        z: (r.orig.z - qd.q.z) as i64,
    };
    spec_dot(
        r.dir,
        Vec3 {
            x: spec_cross_x(tv, qd.u) as i64,
            y: spec_cross_y(tv, qd.u) as i64,
            z: spec_cross_z(tv, qd.u) as i64,
        },
    )
}

/// Numerator of `t` (times the determinant sign).
pub open spec fn quad_t_num(qd: Quad, r: Ray) -> int {
    let tv = Vec3 {
        x: (r.orig.x - qd.q.x) as i64,
        y: (r.orig.y - qd.q.y) as i64,
        z: (r.orig.z - qd.q.z) as i64,
    };
    spec_dot(
        qd.v,
        Vec3 {
            x: spec_cross_x(tv, qd.u) as i64,
            y: spec_cross_y(tv, qd.u) as i64,
            z: spec_cross_z(tv, qd.u) as i64,
        },
    )
}

/// Whether the plane coordinates pass the quad's inside test,
/// `0 <= alpha <= 1 && 0 <= beta <= 1` (closed bounds), stated over
/// the signed numerators and determinant.
pub open spec fn quad_inside(qd: Quad, r: Ray) -> bool {
    let det = quad_det(qd, r);
    let a = quad_alpha_num(qd, r);
    let b = quad_beta_num(qd, r);
    if det > 0 {
        0 <= a <= det && 0 <= b <= det
    } else {
        det <= a <= 0 && det <= b <= 0
    }
}

/// The candidate parameter of the quad for a ray, with a positive
/// denominator; meaningful only when the determinant is nonzero.
pub open spec fn quad_cand(qd: Quad, r: Ray) -> Rat {
    let det = quad_det(qd, r);
    if det > 0 {
        Rat { n: quad_t_num(qd, r), d: det }
    } else {
        Rat { n: -quad_t_num(qd, r), d: -det }
    }
}

/// The reported fixed-point surface coordinate `alpha` (the floor of
/// `alpha * FP_ONE`), from the sign-normalized Cramer ratio.
pub open spec fn quad_alpha_fp(qd: Quad, r: Ray) -> int {
    let det = quad_det(qd, r);
    if det > 0 {
        quad_alpha_num(qd, r) * (FP_ONE as int) / det
    } else {
        (-quad_alpha_num(qd, r)) * (FP_ONE as int) / (-det)
    }
}

/// The reported fixed-point surface coordinate `beta`.
pub open spec fn quad_beta_fp(qd: Quad, r: Ray) -> int {
    let det = quad_det(qd, r);
    if det > 0 {
        quad_beta_num(qd, r) * (FP_ONE as int) / det
    } else {
        (-quad_beta_num(qd, r)) * (FP_ONE as int) / (-det)
    }
}

/// The parameter at which `hit` reports an intersection: the plane
/// parameter if the ray is not parallel, the planar coordinates pass
/// the inside test, and it lies strictly inside the span.
pub open spec fn quad_hit_t(qd: Quad, r: Ray, lo: Rat, hi: Rat) -> Option<Rat> {
    if quad_det(qd, r) != 0 && quad_inside(qd, r) && rat_in_open(quad_cand(qd, r), lo, hi) {
        Some(quad_cand(qd, r))
    } else {
        None
    }
}

impl Quad {
    /// Builds a quad, its unnormalized normal and its padded box.
    pub fn new(q: Vec3, u: Vec3, v: Vec3, mat: Material) -> (qd: Quad)
        requires
            vec_in(q, COORD_MAX as int),
            vec_in(u, COORD_MAX as int),
            vec_in(v, COORD_MAX as int),
            mat_wf(mat),
        ensures
            quad_wf(qd),
            qd.q == q,
            qd.u == u,
            qd.v == v,
            qd.mat == mat,
    {
        let normal = u.cross(&v);
        let far = q.add(&u).add(&v);
        let bbox = AABB::from_points(q, far).pad();
        Quad { q, u, v, normal, mat, bbox }
    }

    /// Intersects the ray with the quad over the open span: the exact
    /// plane parameter, hit point, planar surface coordinates, and the
    /// unnormalized normal `u x v` oriented against the ray.
    pub fn hit<'a>(&'a self, r: &Ray, ray_t: &RaySpan) -> (res: Option<HitRecord<'a>>)
        requires
            quad_wf(*self),
            ray_ok(*r),
            span_ok(*ray_t),
        ensures
            match res {
                None => quad_hit_t(*self, *r, ray_t.min@, ray_t.max@) is None,
                Some(h) => {
                    &&& quad_hit_t(*self, *r, ray_t.min@, ray_t.max@) == Some(h.t@)
                    &&& frac_ok(h.t)
                    &&& rec_wf(h)
                    &&& h.p@.x == spec_at_axis(r.orig.x as int, r.dir.x as int, h.t@)
                    &&& h.p@.y == spec_at_axis(r.orig.y as int, r.dir.y as int, h.t@)
                    &&& h.p@.z == spec_at_axis(r.orig.z as int, r.dir.z as int, h.t@)
                    &&& h.u as int == quad_alpha_fp(*self, *r)
                    &&& h.v as int == quad_beta_fp(*self, *r)
                    &&& h.front_face == (rv_dot_v(RatVec3::spec_from_vec(self.normal), r.dir) < 0)
                    &&& h.normal == if h.front_face {
                        RatVec3::spec_from_vec(self.normal)
                    } else {
                        RatVec3::spec_from_vec(self.normal).spec_neg()
                    }
                    &&& h.material == Some(&self.mat)
                    &&& mat_wf(self.mat)
                    &&& crate::hittable::prim_mat_src(
                        crate::hittable::Primitive::Quad(*self),
                        self.mat,
                    )
                },
            },
    {
        let tv = r.orig.sub(&self.q);
        let pvec = r.dir.cross(&self.v);
        proof {
            lemma_cross_bound(r.dir, self.v, COORD_MAX as int, COORD_MAX as int);
            lemma_dot_bound(self.u, pvec, COORD_MAX as int, 0x40_0000_0000);
            lemma_dot_bound(tv, pvec, 0x14_0000, 0x40_0000_0000);
        }
        let det = self.u.dot(&pvec);
        if det == 0 {
            return None;
        }
        let a_num = tv.dot(&pvec);
        let qvec = tv.cross(&self.u);
        proof {
            lemma_cross_bound(tv, self.u, 0x14_0000, COORD_MAX as int);
            lemma_dot_bound(r.dir, qvec, COORD_MAX as int, 0x100_0000_0000);
            lemma_dot_bound(self.v, qvec, COORD_MAX as int, 0x100_0000_0000);
        }
        let b_num = r.dir.dot(&qvec);
        let t_num = self.v.dot(&qvec);
        let inside = if det > 0 {
            0 <= a_num && a_num <= det && 0 <= b_num && b_num <= det
        } else {
            det <= a_num && a_num <= 0 && det <= b_num && b_num <= 0
        };
        if !inside {
            return None;
        }
        let cand = if det > 0 {
            Frac { n: t_num, d: det }
        } else {
            Frac { n: -t_num, d: -det }
        };
        if !(ray_t.min.lt(&cand) && cand.lt(&ray_t.max)) {
            return None;
        }
        let p = r.at(&cand);
        let (ua, ub) = if det > 0 {
            (a_num, b_num)
        } else {
            (-a_num, -b_num)
        };
        let dpos = if det > 0 {
            det
        } else {
            -det
        };
        proof {
            lemma_mul_bound(ua as int, FP_ONE as int, 0x400_0000_0000_0000, FP_ONE as int);
            lemma_mul_bound(ub as int, FP_ONE as int, 0x400_0000_0000_0000, FP_ONE as int);
            assert(0 <= (ua as int) * (FP_ONE as int) / (dpos as int) <= FP_ONE)
                by (nonlinear_arith)
                requires
                    0 <= ua as int <= dpos as int,
                    dpos as int > 0,
            ;
            assert(0 <= (ub as int) * (FP_ONE as int) / (dpos as int) <= FP_ONE)
                by (nonlinear_arith)
                requires
                    0 <= ub as int <= dpos as int,
                    dpos as int > 0,
            ;
        }
        let alpha = floor_div_i128(ua * (FP_ONE as i128), dpos) as i64;
        let beta = floor_div_i128(ub * (FP_ONE as i128), dpos) as i64;
        let outward = RatVec3::from_vec(&self.normal);
        Some(HitRecord::new(p, outward, cand, r, Some(&self.mat), alpha, beta))
    }

    /// The precomputed bounding box.
    pub fn bounding_box(&self) -> (b: AABB)
        ensures
            b == self.bbox,
    {
        self.bbox
    }
}

} // verus!
