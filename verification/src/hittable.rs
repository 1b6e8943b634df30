//! Hit records: the uniform result of a ray/primitive intersection.
//!
//! A record holds the exact rational hit point and parameter, the exact
//! (unnormalized) oriented surface normal, fixed-point surface
//! coordinates, and the side flag. The stored normal always opposes the
//! incoming ray: `new` flips the outward normal when the ray strikes
//! the back side and remembers which side was hit in `front_face`.

use vstd::prelude::*;
use crate::frac::{Rat, Frac, frac_ok, rat_in_open};
use crate::vec3::{Vec3, RatVec3, rv_ok, vec_in};
use crate::ray::{Ray, ray_ok, spec_at_axis, BOX_MAX};
use crate::interval::{RaySpan, span_ok};
use crate::aabb::{AABB, aabb_in};
use crate::material::{Material, mat_wf};
use crate::sphere::{Sphere, sphere_wf, sph_hit_t};
use crate::quad::{Quad, quad_wf, quad_hit_t};
use crate::triangle::{Triangle, tri_wf, tri_hit_t, Mesh, mesh_wf};
use crate::bvh::{node_hit_t, node_bbox, lemma_node_bbox_in_box};
use crate::{COORD_MAX, FP_ONE};

verus! {

/// A renderable primitive: the tagged union over the concrete shapes.
pub enum Primitive {
    Sphere(Sphere),
    Quad(Quad),
    Triangle(Triangle),
    Mesh(Mesh),
}

/// Well-formedness of a primitive, by dispatch.
pub open spec fn prim_wf(p: Primitive) -> bool
    decreases p,
{
    match p {
        Primitive::Sphere(s) => sphere_wf(s),
        Primitive::Quad(q) => quad_wf(q),
        Primitive::Triangle(t) => tri_wf(t),
        Primitive::Mesh(m) => mesh_wf(m),
    }
}

/// The bounding box of a primitive, by dispatch.
pub open spec fn prim_bbox(p: Primitive) -> AABB {
    match p {
        Primitive::Sphere(s) => s.bbox,
        Primitive::Quad(q) => q.bbox,
        Primitive::Triangle(t) => t.bbox,
        Primitive::Mesh(m) => m.bbox,
    }
}

/// The primitive carries this material: its own, or, for a mesh, the
/// material of one of its triangles.
pub open spec fn prim_mat_src(p: Primitive, m: Material) -> bool
    decreases p, 2int,
{
    match p {
        Primitive::Sphere(s) => m == s.mat,
        Primitive::Quad(q) => m == q.mat,
        Primitive::Triangle(t) => m == t.mat,
        Primitive::Mesh(ms) => crate::bvh::node_has_mat(*ms.triangles, m),
    }
}

/// The parameter at which a primitive reports a hit, by dispatch; a
/// mesh defers to the traversal of its inner tree.
pub open spec fn prim_hit_t(p: Primitive, r: Ray, lo: Rat, hi: Rat) -> Option<Rat>
    decreases p, 2int,
{
    match p {
        Primitive::Sphere(s) => sph_hit_t(s, r, lo, hi),
        Primitive::Quad(q) => quad_hit_t(q, r, lo, hi),
        Primitive::Triangle(t) => tri_hit_t(t, r, lo, hi),
        Primitive::Mesh(m) => node_hit_t(*m.triangles, r, lo, hi),
    }
}

/// The box of a well-formed primitive is within the box budget.
pub proof fn lemma_prim_bbox_in_box(p: Primitive)
    requires
        prim_wf(p),
    ensures
        aabb_in(prim_bbox(p), BOX_MAX as int),
    decreases p, 2int,
{
    match p {
        Primitive::Mesh(m) => {
            lemma_node_bbox_in_box(*m.triangles);
        },
        _ => {},
    }
}

impl Primitive {
    /// Intersects the ray with the primitive over the open span,
    /// dispatching on the shape; `prim_hit_t` gives the parameter.
    pub fn hit<'a>(&'a self, r: &Ray, ray_t: &RaySpan) -> (res: Option<HitRecord<'a>>)
        requires
            prim_wf(*self),
            ray_ok(*r),
            span_ok(*ray_t),
        ensures
            match res {
                None => prim_hit_t(*self, *r, ray_t.min@, ray_t.max@) is None,
                Some(h) => {
                    &&& prim_hit_t(*self, *r, ray_t.min@, ray_t.max@) == Some(h.t@)
                    &&& frac_ok(h.t)
                    &&& rec_wf(h)
                    &&& rat_in_open(h.t@, ray_t.min@, ray_t.max@)
                    &&& h.p@.x == spec_at_axis(r.orig.x as int, r.dir.x as int, h.t@)
                    &&& h.p@.y == spec_at_axis(r.orig.y as int, r.dir.y as int, h.t@)
                    &&& h.p@.z == spec_at_axis(r.orig.z as int, r.dir.z as int, h.t@)
                    &&& match h.material {
                        Some(m) => mat_wf(*m) && prim_mat_src(*self, *m),
                        None => false,
                    }
                },
            },
        decreases *self,
    {
        match self {
            Primitive::Sphere(s) => s.hit(r, ray_t),
            Primitive::Quad(q) => q.hit(r, ray_t),
            Primitive::Triangle(t) => t.hit(r, ray_t),
            Primitive::Mesh(m) => m.hit(r, ray_t),
        }
    }

    /// The bounding box of the primitive.
    pub fn bounding_box(&self) -> (b: AABB)
        requires
            prim_wf(*self),
        ensures
            b == prim_bbox(*self),
    {
        match self {
            Primitive::Sphere(s) => s.bounding_box(),
            Primitive::Quad(q) => q.bounding_box(),
            Primitive::Triangle(t) => t.bounding_box(),
            Primitive::Mesh(m) => m.bounding_box(),
        }
    }
}

/// The exact dot product numerator of a rational vector with an integer
/// vector; its sign is the sign of the true dot product.
pub open spec fn rv_dot_v(n: RatVec3, o: Vec3) -> int {
    (n.nx as int) * (o.x as int) + (n.ny as int) * (o.y as int) + (n.nz as int) * (o.z as int)
}

/// The result of a successful ray/primitive intersection.
pub struct HitRecord<'a> {
    /// The exact rational hit point, `ray.at(t)`.
    pub p: RatVec3,
    /// The exact oriented normal: the outward normal, flipped when the
    /// ray hit the back side. Unnormalized; only its direction matters.
    pub normal: RatVec3,
    /// The material of the surface that was hit, if it carries one.
    pub material: Option<&'a Material>,
    /// The exact ray parameter of the hit.
    pub t: Frac,
    /// Fixed-point surface coordinates in `[0, FP_ONE]`.
    pub u: i64,
    /// See `u`.
    pub v: i64,
    /// True iff the ray struck the outward side of the surface.
    pub front_face: bool,
}

/// Well-formedness of a hit record's numeric fields.
pub open spec fn rec_wf(h: HitRecord) -> bool {
    &&& rv_ok(h.p)
    &&& rv_ok(h.normal)
    &&& frac_ok(h.t)
    &&& 0 <= h.u <= FP_ONE
    &&& 0 <= h.v <= FP_ONE
}

impl<'a> HitRecord<'a> {
    /// Builds a record, orienting the normal against the incoming ray:
    /// the ray hit the front face iff its direction opposes the outward
    /// normal, and the stored normal is flipped on a back-face hit, so
    /// it never points with the ray (their dot product is nonpositive,
    /// and negative unless the ray grazes the surface tangentially).
    pub fn new(
        p: RatVec3,
        outward_normal: RatVec3,
        t: Frac,
        r: &Ray,
        material: Option<&'a Material>,
        u: i64,
        v: i64,
    ) -> (rec: HitRecord<'a>)
        requires
            rv_ok(p),
            rv_ok(outward_normal),
            frac_ok(t),
            ray_ok(*r),
            0 <= u <= FP_ONE,
            0 <= v <= FP_ONE,
        ensures
            rec.front_face == (rv_dot_v(outward_normal, r.dir) < 0),
            rec.normal == if rec.front_face {
                outward_normal
            } else {
                outward_normal.spec_neg()
            },
            rv_dot_v(rec.normal, r.dir) <= 0,
            rv_dot_v(outward_normal, r.dir) != 0 ==> rv_dot_v(rec.normal, r.dir) < 0,
            rec.p == p,
            rec.t == t,
            rec.material == material,
            rec.u == u,
            rec.v == v,
            rec_wf(rec),
    {
        let d = outward_normal.dot_vec_num(&r.dir);
        let front_face = d < 0;
        let normal = if front_face {
            outward_normal
        } else {
            outward_normal.neg()
        };
        proof {
            let n = outward_normal;
            assert((-(n.nx as int)) * (r.dir.x as int) == -((n.nx as int) * (r.dir.x as int)))
                by (nonlinear_arith);
            assert((-(n.ny as int)) * (r.dir.y as int) == -((n.ny as int) * (r.dir.y as int)))
                by (nonlinear_arith);
            assert((-(n.nz as int)) * (r.dir.z as int) == -((n.nz as int) * (r.dir.z as int)))
                by (nonlinear_arith);
        }
        HitRecord { p, normal, material, t, u, v, front_face }
    }

    /// The same record with the material replaced.
    pub fn with_material(self, mat: &'a Material) -> (rec: HitRecord<'a>)
        ensures
            rec.material == Some(mat),
            rec.p == self.p,
            rec.normal == self.normal,
            rec.t == self.t,
            rec.u == self.u,
            rec.v == self.v,
            rec.front_face == self.front_face,
    {
        HitRecord { material: Some(mat), ..self }
    }
}

} // verus!
