//! Triangles: exact Moeller-Trumbore intersection.
//!
//! For vertices `v0, v1, v2` with edges `e1 = v1 - v0`, `e2 = v2 - v0`,
//! the barycentric system `u e1 + v e2 - t d = o - v0` is solved by
//! Cramer's rule; all determinants are exact integers. Backface culling
//! is on: a triangle is hit only from the side its normal `e1 x e2`
//! faces, i.e. only for a positive determinant.

use vstd::prelude::*;
use crate::frac::{Rat, Frac, frac_ok, rat_in_open, lemma_mul_bound, floor_div_i128};
use crate::vec3::{Vec3, RatVec3, rv_ok, vec_in, spec_dot, spec_cross_x, spec_cross_y,
    spec_cross_z, lemma_dot_bound, lemma_cross_bound};
use crate::interval::{RaySpan, span_ok};
use crate::aabb::AABB;
use crate::ray::{Ray, ray_ok, spec_at_axis};
use crate::hittable::{HitRecord, rv_dot_v, rec_wf};
use crate::material::{Material, mat_wf, clone_mat};
use crate::aabb::pad_box;
use crate::{COORD_MAX, FP_ONE};

verus! {

/// A triangle: three vertices, the precomputed unnormalized normal
/// `(v1 - v0) x (v2 - v0)`, a material, and a padded bounding box.
pub struct Triangle {
    pub v0: Vec3,
    pub v1: Vec3,
    pub v2: Vec3,
    pub normal: Vec3,
    pub mat: Material,
    pub bbox: AABB,
}

/// The first edge vector `v1 - v0`.
pub open spec fn tri_e1(t: Triangle) -> Vec3 {
    Vec3 { x: (t.v1.x - t.v0.x) as i64, y: (t.v1.y - t.v0.y) as i64, z: (t.v1.z - t.v0.z) as i64 }
}

/// The second edge vector `v2 - v0`.
pub open spec fn tri_e2(t: Triangle) -> Vec3 {
    Vec3 { x: (t.v2.x - t.v0.x) as i64, y: (t.v2.y - t.v0.y) as i64, z: (t.v2.z - t.v0.z) as i64 }
}

/// Well-formedness of a triangle: vertices within budget, normal and
/// box as built by `new`.
pub open spec fn tri_wf(t: Triangle) -> bool {
    &&& vec_in(t.v0, COORD_MAX as int)
    &&& vec_in(t.v1, COORD_MAX as int)
    &&& vec_in(t.v2, COORD_MAX as int)
    &&& mat_wf(t.mat)
    &&& t.normal.x as int == spec_cross_x(tri_e1(t), tri_e2(t))
    &&& t.normal.y as int == spec_cross_y(tri_e1(t), tri_e2(t))
    &&& t.normal.z as int == spec_cross_z(tri_e1(t), tri_e2(t))
    &&& t.bbox == pad_box(
        crate::aabb::spec_aabb_union(
            AABB::spec_from_points(t.v0, t.v1),
            AABB::spec_from_points(t.v2, t.v2),
        ),
    )
}

/// The Moeller-Trumbore determinant `e1 . (d x e2)`; with backface
/// culling only a positive value can yield a hit.
pub open spec fn tri_det(t: Triangle, r: Ray) -> int {
    spec_dot(
        tri_e1(t),
        Vec3 {
            x: spec_cross_x(r.dir, tri_e2(t)) as i64,
            y: spec_cross_y(r.dir, tri_e2(t)) as i64,
            z: spec_cross_z(r.dir, tri_e2(t)) as i64,
        },
    )
}

/// The translated origin `o - v0`.
pub open spec fn tri_tv(t: Triangle, r: Ray) -> Vec3 {
    Vec3 {
        x: (r.orig.x - t.v0.x) as i64,
        y: (r.orig.y - t.v0.y) as i64,
        z: (r.orig.z - t.v0.z) as i64,
    }
}

/// Numerator of the barycentric `u`.
pub open spec fn tri_u_num(t: Triangle, r: Ray) -> int {
    spec_dot(
        tri_tv(t, r),
        Vec3 {
            x: spec_cross_x(r.dir, tri_e2(t)) as i64,
            y: spec_cross_y(r.dir, tri_e2(t)) as i64,
            z: spec_cross_z(r.dir, tri_e2(t)) as i64,
        },
    )
}

/// Numerator of the barycentric `v`.
pub open spec fn tri_v_num(t: Triangle, r: Ray) -> int {
    spec_dot(
        r.dir,
        Vec3 {
            x: spec_cross_x(tri_tv(t, r), tri_e1(t)) as i64,
            y: spec_cross_y(tri_tv(t, r), tri_e1(t)) as i64,
            z: spec_cross_z(tri_tv(t, r), tri_e1(t)) as i64,
        },
    )
}

/// Numerator of the ray parameter `t`.
pub open spec fn tri_t_num(t: Triangle, r: Ray) -> int {
    spec_dot(
        tri_e2(t),
        Vec3 {
            x: spec_cross_x(tri_tv(t, r), tri_e1(t)) as i64,
            y: spec_cross_y(tri_tv(t, r), tri_e1(t)) as i64,
            z: spec_cross_z(tri_tv(t, r), tri_e1(t)) as i64,
        },
    )
}

/// Whether the barycentric coordinates pass the inside test:
/// `0 <= u <= 1`, `0 <= v` and `u + v <= 1`.
pub open spec fn tri_inside(t: Triangle, r: Ray) -> bool {
    let det = tri_det(t, r);
    let u = tri_u_num(t, r);
    let v = tri_v_num(t, r);
    0 <= u && u <= det && 0 <= v && u + v <= det
}

/// The candidate parameter of the triangle for a ray; meaningful only
/// when the determinant is positive.
pub open spec fn tri_cand(t: Triangle, r: Ray) -> Rat {
    Rat { n: tri_t_num(t, r), d: tri_det(t, r) }
}

/// The reported fixed-point barycentric `u` (the floor of `u * FP_ONE`).
pub open spec fn tri_u_fp(t: Triangle, r: Ray) -> int {
    tri_u_num(t, r) * (FP_ONE as int) / tri_det(t, r)
}

/// The reported fixed-point barycentric `v`.
pub open spec fn tri_v_fp(t: Triangle, r: Ray) -> int {
    tri_v_num(t, r) * (FP_ONE as int) / tri_det(t, r)
}

/// The parameter at which `hit` reports an intersection: the plane
/// parameter if the determinant is positive (front side, culling),
/// the barycentric coordinates pass the inside test, and it lies
/// strictly inside the span.
pub open spec fn tri_hit_t(t: Triangle, r: Ray, lo: Rat, hi: Rat) -> Option<Rat> {
    if tri_det(t, r) > 0 && tri_inside(t, r) && rat_in_open(tri_cand(t, r), lo, hi) {
        Some(tri_cand(t, r))
    } else {
        None
    }
}

/// The exact triangle `new` builds: vertices as given, the precomputed
/// cross-product normal, the padded vertex box, and the face material
/// or the diagnostic default.
pub open spec fn spec_triangle(v0: Vec3, v1: Vec3, v2: Vec3, mat: Option<Material>) -> Triangle {
    let e1 = Vec3 { x: (v1.x - v0.x) as i64, y: (v1.y - v0.y) as i64, z: (v1.z - v0.z) as i64 };
    let e2 = Vec3 { x: (v2.x - v0.x) as i64, y: (v2.y - v0.y) as i64, z: (v2.z - v0.z) as i64 };
    Triangle {
        v0,
        v1,
        v2,
        normal: Vec3 {
            x: spec_cross_x(e1, e2) as i64,
            y: spec_cross_y(e1, e2) as i64,
            z: spec_cross_z(e1, e2) as i64,
        },
        mat: match mat {
            Some(m) => m,
            None => crate::material::spec_default_material(),
        },
        bbox: pad_box(
            crate::aabb::spec_aabb_union(
                AABB::spec_from_points(v0, v1),
                AABB::spec_from_points(v2, v2),
            ),
        ),
    }
}

impl Triangle {
    /// Builds a triangle, its unnormalized normal and its padded box.
    /// A face with no material of its own gets the diagnostic default.
    pub fn new(v0: Vec3, v1: Vec3, v2: Vec3, mat: Option<Material>) -> (t: Triangle)
        requires
            vec_in(v0, COORD_MAX as int),
            vec_in(v1, COORD_MAX as int),
            vec_in(v2, COORD_MAX as int),
            match mat {
                Some(m) => mat_wf(m),
                None => true,
            },
        ensures
            tri_wf(t),
            t == spec_triangle(v0, v1, v2, mat),
    {
        let bbox = AABB::from_3_points(v0, v1, v2).pad();
        let e1 = v1.sub(&v0);
        let e2 = v2.sub(&v0);
        let normal = e1.cross(&e2);
        let m = match mat {
            Some(m) => m,
            None => Material::default(),
        };
        Triangle { v0, v1, v2, normal, mat: m, bbox }
    }

    /// The same triangle with the material replaced.
    pub fn with_material(self, mat: Material) -> (t: Triangle)
        requires
            mat_wf(mat),
        ensures
            t.mat == mat,
            t.v0 == self.v0,
            t.v1 == self.v1,
            t.v2 == self.v2,
            t.normal == self.normal,
            t.bbox == self.bbox,
    {
        let mut new = self;
        new.mat = mat;
        new
    }

    /// Intersects the ray with the triangle over the open span: the
    /// exact plane parameter, hit point, barycentric surface
    /// coordinates, and the unnormalized normal `e1 x e2` oriented
    /// against the ray.
    pub fn hit<'a>(&'a self, r: &Ray, ray_t: &RaySpan) -> (res: Option<HitRecord<'a>>)
        requires
            tri_wf(*self),
            ray_ok(*r),
            span_ok(*ray_t),
        ensures
            match res {
                None => tri_hit_t(*self, *r, ray_t.min@, ray_t.max@) is None,
                Some(h) => {
                    &&& tri_hit_t(*self, *r, ray_t.min@, ray_t.max@) == Some(h.t@)
                    &&& frac_ok(h.t)
                    &&& rec_wf(h)
                    &&& h.p@.x == spec_at_axis(r.orig.x as int, r.dir.x as int, h.t@)
                    &&& h.p@.y == spec_at_axis(r.orig.y as int, r.dir.y as int, h.t@)
                    &&& h.p@.z == spec_at_axis(r.orig.z as int, r.dir.z as int, h.t@)
                    &&& h.u as int == tri_u_fp(*self, *r)
                    &&& h.v as int == tri_v_fp(*self, *r)
                    &&& h.front_face == (rv_dot_v(RatVec3::spec_from_vec(self.normal), r.dir) < 0)
                    &&& h.normal == if h.front_face {
                        RatVec3::spec_from_vec(self.normal)
                    } else {
                        RatVec3::spec_from_vec(self.normal).spec_neg()
                    }
                    &&& h.material == Some(&self.mat)
                    &&& mat_wf(self.mat)
                    &&& crate::hittable::prim_mat_src(
                        crate::hittable::Primitive::Triangle(*self),
                        self.mat,
                    )
                },
            },
    {
        let e1 = self.v1.sub(&self.v0);
        let e2 = self.v2.sub(&self.v0);
        let pvec = r.dir.cross(&e2);
        let tv = r.orig.sub(&self.v0);
        proof {
            lemma_cross_bound(r.dir, e2, COORD_MAX as int, 0x8_0000);
            lemma_dot_bound(e1, pvec, 0x8_0000, 0x80_0000_0000);
            lemma_dot_bound(tv, pvec, 0x14_0000, 0x80_0000_0000);
        }
        let det = e1.dot(&pvec);
        // backface culling: only front-side hits count
        if det <= 0 {
            return None;
        }
        let u_num = tv.dot(&pvec);
        if u_num < 0 || u_num > det {
            return None;
        }
        let qvec = tv.cross(&e1);
        proof {
            lemma_cross_bound(tv, e1, 0x14_0000, 0x8_0000);
            lemma_dot_bound(r.dir, qvec, COORD_MAX as int, 0x200_0000_0000);
            lemma_dot_bound(e2, qvec, 0x8_0000, 0x200_0000_0000);
        }
        let v_num = r.dir.dot(&qvec);
        if v_num < 0 || u_num + v_num > det {
            return None;
        }
        let t_num = e2.dot(&qvec);
        let cand = Frac { n: t_num, d: det };
        if !(ray_t.min.lt(&cand) && cand.lt(&ray_t.max)) {
            return None;
        }
        let p = r.at(&cand);
        proof {
            lemma_mul_bound(u_num as int, FP_ONE as int, 0x4000_0000_0000_0000, FP_ONE as int);
            lemma_mul_bound(v_num as int, FP_ONE as int, 0x4000_0000_0000_0000, FP_ONE as int);
            assert(0 <= (u_num as int) * (FP_ONE as int) / (det as int) <= FP_ONE)
                by (nonlinear_arith)
                requires
                    0 <= u_num as int <= det as int,
                    det as int > 0,
            ;
            assert(0 <= (v_num as int) * (FP_ONE as int) / (det as int) <= FP_ONE)
                by (nonlinear_arith)
                requires
                    0 <= v_num as int <= det as int,
                    det as int > 0,
            ;
        }
        let u = floor_div_i128(u_num * (FP_ONE as i128), det) as i64;
        let v = floor_div_i128(v_num * (FP_ONE as i128), det) as i64;
        let outward = RatVec3::from_vec(&self.normal);
        Some(HitRecord::new(p, outward, cand, r, Some(&self.mat), u, v))
    }

    /// The precomputed bounding box.
    pub fn bounding_box(&self) -> (b: AABB)
        ensures
            b == self.bbox,
    {
        self.bbox
    }
}

/// The geometry of one fan triangle: its three vertices in order.
pub ghost struct TriGeom {
    pub v0: Vec3,
    pub v1: Vec3,
    pub v2: Vec3,
}

/// The fan of one face over a vertex table: a triangle face yields its
/// one triangle, a quad face fans into `v0 v1 v2` and `v2 v3 v0`.
pub open spec fn face_fan(f: crate::obj::Face, verts: Seq<Vec3>) -> Seq<TriGeom> {
    match f {
        crate::obj::Face::Triangle(i0, i1, i2, _) => seq![
            TriGeom { v0: verts[i0 as int], v1: verts[i1 as int], v2: verts[i2 as int] },
        ],
        crate::obj::Face::Quad(i0, i1, i2, i3, _) => seq![
            TriGeom { v0: verts[i0 as int], v1: verts[i1 as int], v2: verts[i2 as int] },
            TriGeom { v0: verts[i2 as int], v1: verts[i3 as int], v2: verts[i0 as int] },
        ],
    }
}

/// The fan of a whole face list, in order.
pub open spec fn fan_of(faces: Seq<crate::obj::Face>, verts: Seq<Vec3>) -> Seq<TriGeom>
    decreases faces.len(),
{
    if faces.len() == 0 {
        Seq::empty()
    } else {
        fan_of(faces.drop_last(), verts) + face_fan(faces.last(), verts)
    }
}

/// The geometry of a leaf primitive; only triangle leaves are
/// meaningful (the fan law below also states every leaf is one).
pub open spec fn prim_geom(p: crate::hittable::Primitive) -> TriGeom {
    match p {
        crate::hittable::Primitive::Triangle(t) => TriGeom { v0: t.v0, v1: t.v1, v2: t.v2 },
        _ => TriGeom {
            v0: Vec3 { x: 0i64, y: 0i64, z: 0i64 },
            v1: Vec3 { x: 0i64, y: 0i64, z: 0i64 },
            v2: Vec3 { x: 0i64, y: 0i64, z: 0i64 },
        },
    }
}

/// The geometries of a primitive sequence, elementwise.
pub open spec fn geoms_of(s: Seq<crate::hittable::Primitive>) -> Seq<TriGeom>
    decreases s.len(),
{
    if s.len() == 0 {
        Seq::empty()
    } else {
        geoms_of(s.drop_last()).push(prim_geom(s.last()))
    }
}

/// Pulling one element out of the geometry projection.
proof fn lemma_geoms_pull(s: Seq<crate::hittable::Primitive>, i: int)
    requires
        0 <= i < s.len(),
    ensures
        geoms_of(s).to_multiset() == geoms_of(s.remove(i)).to_multiset().insert(prim_geom(s[i])),
    decreases s.len(),
{
    broadcast use vstd::seq_lib::group_to_multiset_ensures;

    if i == s.len() - 1 {
        assert(s.remove(i) =~= s.drop_last());
        assert(geoms_of(s).to_multiset() =~= geoms_of(s.drop_last()).to_multiset().insert(
            prim_geom(s.last()),
        ));
    } else {
        let sdl = s.drop_last();
        lemma_geoms_pull(sdl, i);
        assert(s.remove(i).drop_last() =~= sdl.remove(i));
        assert(s.remove(i).last() == s.last());
        assert(geoms_of(s).to_multiset() =~= geoms_of(sdl).to_multiset().insert(
            prim_geom(s.last()),
        ));
        assert(geoms_of(s.remove(i)).to_multiset() =~= geoms_of(sdl.remove(i)).to_multiset()
            .insert(prim_geom(s.last())));
        assert(geoms_of(sdl).to_multiset().insert(prim_geom(s.last()))
            =~= geoms_of(sdl.remove(i)).to_multiset().insert(prim_geom(s[i])).insert(
            prim_geom(s.last()),
        ));
        assert(geoms_of(sdl.remove(i)).to_multiset().insert(prim_geom(s[i])).insert(
            prim_geom(s.last()),
        ) =~= geoms_of(sdl.remove(i)).to_multiset().insert(prim_geom(s.last())).insert(
            prim_geom(s[i]),
        ));
    }
}

/// Primitive sequences with equal multisets have geometry projections
/// with equal multisets.
pub proof fn lemma_geoms_multiset(
    s1: Seq<crate::hittable::Primitive>,
    s2: Seq<crate::hittable::Primitive>,
)
    requires
        s1.to_multiset() == s2.to_multiset(),
    ensures
        geoms_of(s1).to_multiset() == geoms_of(s2).to_multiset(),
    decreases s2.len(),
{
    broadcast use vstd::seq_lib::group_to_multiset_ensures;

    if s2.len() == 0 {
        assert(s1.len() == s1.to_multiset().len());
        assert(s2.len() == s2.to_multiset().len());
    } else {
        let x = s2.last();
        assert(s2.to_multiset().count(x) > 0) by {
            assert(s2[s2.len() - 1] == x);
            assert(s2.contains(x));
        }
        assert(s1.contains(x));
        let i = choose|i: int| 0 <= i < s1.len() && s1[i] == x;
        lemma_geoms_pull(s1, i);
        lemma_geoms_pull(s2, s2.len() - 1);
        assert(s2.remove(s2.len() - 1) =~= s2.drop_last());
        assert(s1.remove(i).to_multiset() =~= s2.drop_last().to_multiset()) by {
            assert(s1.remove(i).to_multiset() =~= s1.to_multiset().remove(x));
            assert(s2.remove(s2.len() - 1).to_multiset() =~= s2.to_multiset().remove(x));
        }
        lemma_geoms_multiset(s1.remove(i), s2.drop_last());
        assert(geoms_of(s1).to_multiset() =~= geoms_of(s2).to_multiset());
    }
}

/// The geometry and material of one fan triangle.
pub ghost struct TriBind {
    pub v0: Vec3,
    pub v1: Vec3,
    pub v2: Vec3,
    pub mat: Material,
}

/// The material a face binds to its fan triangles: its own binding,
/// or the diagnostic default where it has none.
pub open spec fn face_binding(f: crate::obj::Face) -> Material {
    match f {
        crate::obj::Face::Triangle(_, _, _, m) => match m {
            Some(mm) => mm,
            None => crate::material::spec_default_material(),
        },
        crate::obj::Face::Quad(_, _, _, _, m) => match m {
            Some(mm) => mm,
            None => crate::material::spec_default_material(),
        },
    }
}

/// The bindings of the whole fan, one per fan triangle: a quad face
/// binds both of its triangles.
pub open spec fn fan_mats(faces: Seq<crate::obj::Face>) -> Seq<Material>
    decreases faces.len(),
{
    if faces.len() == 0 {
        Seq::empty()
    } else {
        fan_mats(faces.drop_last()) + (match faces.last() {
            crate::obj::Face::Triangle(_, _, _, _) => seq![face_binding(faces.last())],
            crate::obj::Face::Quad(_, _, _, _, _) => seq![
                face_binding(faces.last()),
                face_binding(faces.last()),
            ],
        })
    }
}

/// The fan bindings run parallel to the fan geometry.
proof fn lemma_fan_lens(faces: Seq<crate::obj::Face>, verts: Seq<Vec3>)
    ensures
        fan_mats(faces).len() == fan_of(faces, verts).len(),
    decreases faces.len(),
{
    if faces.len() > 0 {
        lemma_fan_lens(faces.drop_last(), verts);
    }
}

/// The geometry-and-material of a leaf primitive; only triangle
/// leaves are meaningful.
pub open spec fn prim_bind(p: crate::hittable::Primitive) -> TriBind {
    match p {
        crate::hittable::Primitive::Triangle(t) => TriBind {
            v0: t.v0,
            v1: t.v1,
            v2: t.v2,
            mat: t.mat,
        },
        _ => TriBind {
            v0: Vec3 { x: 0i64, y: 0i64, z: 0i64 },
            v1: Vec3 { x: 0i64, y: 0i64, z: 0i64 },
            v2: Vec3 { x: 0i64, y: 0i64, z: 0i64 },
            mat: crate::material::spec_default_material(),
        },
    }
}

/// The geometry-and-material projection of a primitive sequence.
pub open spec fn binds_of(s: Seq<crate::hittable::Primitive>) -> Seq<TriBind>
    decreases s.len(),
{
    if s.len() == 0 {
        Seq::empty()
    } else {
        binds_of(s.drop_last()).push(prim_bind(s.last()))
    }
}

/// The fan geometry zipped with a choice of concrete materials.
pub open spec fn fan_binds(
    faces: Seq<crate::obj::Face>,
    verts: Seq<Vec3>,
    ms: Seq<Material>,
) -> Seq<TriBind> {
    Seq::new(
        fan_of(faces, verts).len(),
        |k: int|
            TriBind {
                v0: fan_of(faces, verts)[k].v0,
                v1: fan_of(faces, verts)[k].v1,
                v2: fan_of(faces, verts)[k].v2,
                mat: ms[k],
            },
    )
}

/// Indexwise description of the binding projection.
proof fn lemma_binds_index(s: Seq<crate::hittable::Primitive>)
    ensures
        binds_of(s).len() == s.len(),
        forall|k: int| 0 <= k < s.len() ==> binds_of(s)[k] == prim_bind(#[trigger] s[k]),
    decreases s.len(),
{
    if s.len() > 0 {
        lemma_binds_index(s.drop_last());
        assert forall|k: int| 0 <= k < s.len() implies binds_of(s)[k] == prim_bind(
            #[trigger] s[k],
        ) by {
            if k < s.len() - 1 {
                assert(s.drop_last()[k] == s[k]);
                assert(binds_of(s)[k] == binds_of(s.drop_last())[k]);
            } else {
                assert(s.last() == s[k]);
            }
        }
    }
}

/// Pulling one element out of the binding projection.
proof fn lemma_binds_pull(s: Seq<crate::hittable::Primitive>, i: int)
    requires
        0 <= i < s.len(),
    ensures
        binds_of(s).to_multiset() == binds_of(s.remove(i)).to_multiset().insert(prim_bind(s[i])),
    decreases s.len(),
{
    broadcast use vstd::seq_lib::group_to_multiset_ensures;

    if i == s.len() - 1 {
        assert(s.remove(i) =~= s.drop_last());
        assert(binds_of(s).to_multiset() =~= binds_of(s.drop_last()).to_multiset().insert(
            prim_bind(s.last()),
        ));
    } else {
        let sdl = s.drop_last();
        lemma_binds_pull(sdl, i);
        assert(s.remove(i).drop_last() =~= sdl.remove(i));
        assert(s.remove(i).last() == s.last());
        assert(binds_of(s).to_multiset() =~= binds_of(sdl).to_multiset().insert(
            prim_bind(s.last()),
        ));
        assert(binds_of(s.remove(i)).to_multiset() =~= binds_of(sdl.remove(i)).to_multiset()
            .insert(prim_bind(s.last())));
        assert(binds_of(sdl).to_multiset().insert(prim_bind(s.last()))
            =~= binds_of(sdl.remove(i)).to_multiset().insert(prim_bind(s[i])).insert(
            prim_bind(s.last()),
        ));
        assert(binds_of(sdl.remove(i)).to_multiset().insert(prim_bind(s[i])).insert(
            prim_bind(s.last()),
        ) =~= binds_of(sdl.remove(i)).to_multiset().insert(prim_bind(s.last())).insert(
            prim_bind(s[i]),
        ));
    }
}

/// Primitive sequences with equal multisets have binding projections
/// with equal multisets.
proof fn lemma_binds_multiset(
    s1: Seq<crate::hittable::Primitive>,
    s2: Seq<crate::hittable::Primitive>,
)
    requires
        s1.to_multiset() == s2.to_multiset(),
    ensures
        binds_of(s1).to_multiset() == binds_of(s2).to_multiset(),
    decreases s2.len(),
{
    broadcast use vstd::seq_lib::group_to_multiset_ensures;

    if s2.len() == 0 {
        assert(s1.len() == s1.to_multiset().len());
        assert(s2.len() == s2.to_multiset().len());
    } else {
        let x = s2.last();
        assert(s2.to_multiset().count(x) > 0) by {
            assert(s2[s2.len() - 1] == x);
            assert(s2.contains(x));
        }
        assert(s1.contains(x));
        let i = choose|i: int| 0 <= i < s1.len() && s1[i] == x;
        lemma_binds_pull(s1, i);
        lemma_binds_pull(s2, s2.len() - 1);
        assert(s2.remove(s2.len() - 1) =~= s2.drop_last());
        assert(s1.remove(i).to_multiset() =~= s2.drop_last().to_multiset()) by {
            assert(s1.remove(i).to_multiset() =~= s1.to_multiset().remove(x));
            assert(s2.remove(s2.len() - 1).to_multiset() =~= s2.to_multiset().remove(x));
        }
        lemma_binds_multiset(s1.remove(i), s2.drop_last());
        assert(binds_of(s1).to_multiset() =~= binds_of(s2).to_multiset());
    }
}

/// Indexwise description of the geometry projection.
proof fn lemma_geoms_index(s: Seq<crate::hittable::Primitive>)
    ensures
        geoms_of(s).len() == s.len(),
        forall|k: int| 0 <= k < s.len() ==> geoms_of(s)[k] == prim_geom(#[trigger] s[k]),
    decreases s.len(),
{
    if s.len() > 0 {
        lemma_geoms_index(s.drop_last());
        assert forall|k: int| 0 <= k < s.len() implies geoms_of(s)[k] == prim_geom(
            #[trigger] s[k],
        ) by {
            if k < s.len() - 1 {
                assert(s.drop_last()[k] == s[k]);
                assert(geoms_of(s)[k] == geoms_of(s.drop_last())[k]);
            } else {
                assert(s.last() == s[k]);
            }
        }
    }
}

/// Every fan triangle of one face appears in the whole fan.
proof fn lemma_fan_contains(faces: Seq<crate::obj::Face>, verts: Seq<Vec3>, fi: int)
    requires
        0 <= fi < faces.len(),
    ensures
        forall|k: int|
            0 <= k < face_fan(faces[fi], verts).len() ==> fan_of(faces, verts).contains(
                #[trigger] face_fan(faces[fi], verts)[k],
            ),
    decreases faces.len(),
{
    let whole = fan_of(faces, verts);
    let part = face_fan(faces[fi], verts);
    if fi == faces.len() - 1 {
        assert forall|k: int| 0 <= k < part.len() implies whole.contains(#[trigger] part[k]) by {
            assert(whole[fan_of(faces.drop_last(), verts).len() + k] == part[k]);
        }
    } else {
        lemma_fan_contains(faces.drop_last(), verts, fi);
        assert(faces.drop_last()[fi] == faces[fi]);
        let prefix = fan_of(faces.drop_last(), verts);
        assert forall|k: int| 0 <= k < part.len() implies whole.contains(#[trigger] part[k]) by {
            let j = choose|j: int| 0 <= j < prefix.len() && prefix[j] == part[k];
            assert(whole[j] == part[k]);
        }
    }
}

/// A point lies inside a box, boundwise per axis.
pub open spec fn vec_in_aabb(v: Vec3, b: AABB) -> bool {
    &&& b.x.min <= v.x <= b.x.max
    &&& b.y.min <= v.y <= b.y.max
    &&& b.z.min <= v.z <= b.z.max
}

/// All vertices a face references lie inside the box.
pub open spec fn face_verts_in_box(f: crate::obj::Face, verts: Seq<Vec3>, b: AABB) -> bool {
    match f {
        crate::obj::Face::Triangle(i0, i1, i2, _) => vec_in_aabb(verts[i0 as int], b)
            && vec_in_aabb(verts[i1 as int], b) && vec_in_aabb(verts[i2 as int], b),
        crate::obj::Face::Quad(i0, i1, i2, i3, _) => vec_in_aabb(verts[i0 as int], b)
            && vec_in_aabb(verts[i1 as int], b) && vec_in_aabb(verts[i2 as int], b)
            && vec_in_aabb(verts[i3 as int], b),
    }
}

/// The vertices of any geometry at the leaves lie inside the mesh box:
/// a triangle's padded vertex box contains its vertices, and every
/// leaf box lies inside the tree's box.
proof fn lemma_geom_verts_in_box(m: Mesh, g: TriGeom)
    requires
        mesh_wf(m),
        forall|i: int|
            0 <= i < crate::bvh::node_prims(*m.triangles).len() ==> (
            #[trigger] crate::bvh::node_prims(*m.triangles)[i]) is Triangle,
        geoms_of(crate::bvh::node_prims(*m.triangles)).contains(g),
    ensures
        vec_in_aabb(g.v0, m.bbox),
        vec_in_aabb(g.v1, m.bbox),
        vec_in_aabb(g.v2, m.bbox),
{
    let np = crate::bvh::node_prims(*m.triangles);
    crate::bvh::lemma_leaves_wf(*m.triangles);
    crate::bvh::lemma_leaves_in_box(*m.triangles);
    lemma_geoms_index(np);
    let k = choose|k: int| 0 <= k < geoms_of(np).len() && geoms_of(np)[k] == g;
    assert(prim_geom(np[k]) == g);
    let tri = np[k]->Triangle_0;
    assert(tri_wf(tri));
    assert(vec_in_aabb(tri.v0, tri.bbox));
    assert(vec_in_aabb(tri.v1, tri.bbox));
    assert(vec_in_aabb(tri.v2, tri.bbox));
    assert(crate::aabb::aabb_inside(tri.bbox, crate::bvh::node_bbox(*m.triangles)));
}

/// The box of a loaded mesh contains every vertex its faces reference:
/// the fan law puts each face's triangles among the leaves, and every
/// leaf's padded vertex box lies inside the tree's box.
pub proof fn lemma_mesh_box_covers_vertices(m: Mesh, obj: crate::obj::Obj)
    requires
        mesh_wf(m),
        geoms_of(crate::bvh::node_prims(*m.triangles)).to_multiset() == fan_of(
            obj.faces@,
            obj.vertices@,
        ).to_multiset(),
        forall|i: int|
            0 <= i < crate::bvh::node_prims(*m.triangles).len() ==> (
            #[trigger] crate::bvh::node_prims(*m.triangles)[i]) is Triangle,
        forall|i: int|
            0 <= i < obj.faces@.len() ==> crate::obj::face_in_range(
                #[trigger] obj.faces@[i],
                obj.vertices@.len() as int,
            ),
    ensures
        forall|fi: int|
            0 <= fi < obj.faces@.len() ==> face_verts_in_box(
                #[trigger] obj.faces@[fi],
                obj.vertices@,
                m.bbox,
            ),
{
    broadcast use vstd::seq_lib::group_to_multiset_ensures;

    let np = crate::bvh::node_prims(*m.triangles);
    assert forall|fi: int| 0 <= fi < obj.faces@.len() implies face_verts_in_box(
        #[trigger] obj.faces@[fi],
        obj.vertices@,
        m.bbox,
    ) by {
        lemma_fan_contains(obj.faces@, obj.vertices@, fi);
        let part = face_fan(obj.faces@[fi], obj.vertices@);
        assert forall|k: int| 0 <= k < part.len() implies vec_in_aabb(
            (#[trigger] part[k]).v0,
            m.bbox,
        ) && vec_in_aabb(part[k].v1, m.bbox) && vec_in_aabb(part[k].v2, m.bbox) by {
            let g = part[k];
            assert(fan_of(obj.faces@, obj.vertices@).contains(g));
            assert(fan_of(obj.faces@, obj.vertices@).to_multiset().count(g) > 0);
            assert(geoms_of(np).to_multiset().count(g) > 0);
            assert(geoms_of(np).contains(g));
            lemma_geom_verts_in_box(m, g);
        }
        assert(part[0] == part[0]);
        match obj.faces@[fi] {
            crate::obj::Face::Triangle(i0, i1, i2, _) => {
                assert(part[0].v0 == obj.vertices@[i0 as int]);
            },
            crate::obj::Face::Quad(i0, i1, i2, i3, _) => {
                assert(part[0].v0 == obj.vertices@[i0 as int]);
                assert(part[1].v1 == obj.vertices@[i3 as int]);
            },
        }
    }
}

/// The diagnostic default material is `mat_like` itself.
proof fn lemma_default_mat_like()
    ensures
        crate::material::mat_like(
            crate::material::spec_default_material(),
            crate::material::spec_default_material(),
        ),
{
    let d = crate::material::spec_default_material();
    match d {
        Material::Lambertian(tex) => {
            match tex {
                crate::texture::Texture::CheckerTexture(c) => {
                    assert(crate::texture::tex_like(c.even, c.even));
                    assert(crate::texture::tex_like(c.odd, c.odd));
                    assert(crate::texture::tex_like(tex, tex));
                },
                _ => {},
            }
        },
        _ => {},
    }
}

/// A triangle mesh: its triangles in a tree of their own, under one
/// bounding box. Hits delegate to the inner tree.
pub struct Mesh {
    pub triangles: Box<crate::bvh::BvhNode>,
    pub bbox: AABB,
}

/// Well-formedness of a mesh: a well-formed inner tree whose box is
/// the stored one.
pub open spec fn mesh_wf(m: Mesh) -> bool
    decreases m,
{
    &&& crate::bvh::node_wf(*m.triangles)
    &&& m.bbox == crate::bvh::node_bbox(*m.triangles)
}

impl Mesh {
    /// Builds a mesh from decoded geometry: each triangle face becomes
    /// one triangle, each quad face fans into two (`v0 v1 v2` and
    /// `v2 v3 v0`), and the triangles go into a tree of their own.
    /// Returns nothing if the geometry is empty or a face indexes
    /// outside the vertex table.
    pub fn load(obj: &crate::obj::Obj, rng: &mut rand::rngs::ThreadRng) -> (m: Option<Mesh>)
        requires
            crate::obj::obj_wf(*obj),
        ensures
            m is Some <==> (obj.faces@.len() > 0 && forall|i: int|
                0 <= i < obj.faces@.len() ==> crate::obj::face_in_range(
                    #[trigger] obj.faces@[i],
                    obj.vertices@.len() as int,
                )),
            match m {
                Some(mesh) => {
                    &&& mesh_wf(mesh)
                    &&& geoms_of(crate::bvh::node_prims(*mesh.triangles)).to_multiset()
                        == fan_of(obj.faces@, obj.vertices@).to_multiset()
                    &&& forall|i: int|
                        0 <= i < crate::bvh::node_prims(*mesh.triangles).len() ==> (
                        #[trigger] crate::bvh::node_prims(*mesh.triangles)[i]) is Triangle
                    &&& exists|ms: Seq<Material>|
                        #![trigger fan_binds(obj.faces@, obj.vertices@, ms)]
                        {
                            &&& ms.len() == fan_of(obj.faces@, obj.vertices@).len()
                            &&& (forall|k: int|
                                0 <= k < ms.len() ==> crate::material::mat_like(
                                    #[trigger] ms[k],
                                    fan_mats(obj.faces@)[k],
                                ))
                            &&& binds_of(crate::bvh::node_prims(*mesh.triangles)).to_multiset()
                                == fan_binds(obj.faces@, obj.vertices@, ms).to_multiset()
                        }
                },
                None => true,
            },
    {
        let ghost nverts = obj.vertices@.len() as int;
        let ghost mut gms: Seq<Material> = Seq::empty();
        let mut triangles: Vec<crate::hittable::Primitive> = Vec::new();
        let mut bbox = AABB::default();
        let mut fi: usize = 0;
        proof {
            assert(obj.faces@.subrange(0, 0) =~= Seq::<crate::obj::Face>::empty());
        }
        while fi < obj.faces.len()
            invariant
                crate::obj::obj_wf(*obj),
                nverts == obj.vertices@.len() as int,
                fi <= obj.faces@.len(),
                triangles@.len() >= fi,
                forall|i: int|
                    0 <= i < triangles@.len() ==> crate::hittable::prim_wf(
                        #[trigger] triangles@[i],
                    ),
                forall|i: int|
                    0 <= i < triangles@.len() ==> (#[trigger] triangles@[i]) is Triangle,
                forall|i: int|
                    0 <= i < fi ==> crate::obj::face_in_range(#[trigger] obj.faces@[i], nverts),
                geoms_of(triangles@) == fan_of(obj.faces@.subrange(0, fi as int), obj.vertices@),
                gms.len() == triangles@.len(),
                gms.len() == fan_mats(obj.faces@.subrange(0, fi as int)).len(),
                forall|k: int|
                    0 <= k < gms.len() ==> crate::material::mat_like(
                        #[trigger] gms[k],
                        fan_mats(obj.faces@.subrange(0, fi as int))[k],
                    ),
                forall|k: int|
                    0 <= k < triangles@.len() ==> (#[trigger] triangles@[k])->Triangle_0.mat
                        == gms[k],
            decreases obj.faces@.len() - fi,
        {
            let ghost pre = obj.faces@.subrange(0, fi as int);
            let ghost post = obj.faces@.subrange(0, fi as int + 1);
            proof {
                assert(post.drop_last() =~= pre);
                assert(post.last() == obj.faces@[fi as int]);
            }
            match &obj.faces[fi] {
                crate::obj::Face::Triangle(i0, i1, i2, mat) => {
                    let j0 = *i0;
                    let j1 = *i1;
                    let j2 = *i2;
                    if 0 <= j0 && (j0 as usize) < obj.vertices.len() && 0 <= j1 && (j1 as usize)
                        < obj.vertices.len() && 0 <= j2 && (j2 as usize) < obj.vertices.len() {
                        let ghost old_tris = triangles@;
                        let v0 = obj.vertices[j0 as usize];
                        let v1 = obj.vertices[j1 as usize];
                        let v2 = obj.vertices[j2 as usize];
                        let cm = clone_mat(mat);
                        let ghost gcm = cm;
                        let tri = Triangle::new(v0, v1, v2, cm);
                        let ghost gtri = tri;
                        bbox = AABB::from_aabbs(&tri.bounding_box(), &bbox);
                        triangles.push(crate::hittable::Primitive::Triangle(tri));
                        proof {
                            assert(triangles@.drop_last() =~= old_tris);
                            assert(geoms_of(triangles@) =~= fan_of(post, obj.vertices@));
                            let b = face_binding(obj.faces@[fi as int]);
                            if gcm is None {
                                lemma_default_mat_like();
                            }
                            assert(crate::material::mat_like(gtri.mat, b));
                            gms = gms.push(gtri.mat);
                            assert(fan_mats(post) =~= fan_mats(pre).push(b));
                        }
                    } else {
                        return None;
                    }
                },
                crate::obj::Face::Quad(i0, i1, i2, i3, mat) => {
                    let j0 = *i0;
                    let j1 = *i1;
                    let j2 = *i2;
                    let j3 = *i3;
                    if 0 <= j0 && (j0 as usize) < obj.vertices.len() && 0 <= j1 && (j1 as usize)
                        < obj.vertices.len() && 0 <= j2 && (j2 as usize) < obj.vertices.len() && 0
                        <= j3 && (j3 as usize) < obj.vertices.len() {
                        let ghost old_tris = triangles@;
                        let v0 = obj.vertices[j0 as usize];
                        let v1 = obj.vertices[j1 as usize];
                        let v2 = obj.vertices[j2 as usize];
                        let v3 = obj.vertices[j3 as usize];
                        let cm1 = clone_mat(mat);
                        let ghost gcm1 = cm1;
                        let cm2 = clone_mat(mat);
                        let ghost gcm2 = cm2;
                        let tri1 = Triangle::new(v0, v1, v2, cm1);
                        let tri2 = Triangle::new(v2, v3, v0, cm2);
                        let ghost gtri1 = tri1;
                        let ghost gtri2 = tri2;
                        let ghost g1 = prim_geom(crate::hittable::Primitive::Triangle(tri1));
                        let ghost g2 = prim_geom(crate::hittable::Primitive::Triangle(tri2));
                        bbox = AABB::from_aabbs(&tri1.bounding_box(), &bbox);
                        bbox = AABB::from_aabbs(&tri2.bounding_box(), &bbox);
                        triangles.push(crate::hittable::Primitive::Triangle(tri1));
                        let ghost mid_tris = triangles@;
                        triangles.push(crate::hittable::Primitive::Triangle(tri2));
                        proof {
                            assert(mid_tris.drop_last() =~= old_tris);
                            assert(triangles@.drop_last() =~= mid_tris);
                            assert(geoms_of(mid_tris) =~= geoms_of(old_tris).push(g1));
                            assert(geoms_of(triangles@) =~= geoms_of(mid_tris).push(g2));
                            assert(geoms_of(triangles@) =~= fan_of(post, obj.vertices@));
                            let b = face_binding(obj.faces@[fi as int]);
                            if gcm1 is None {
                                lemma_default_mat_like();
                            }
                            assert(crate::material::mat_like(gtri1.mat, b));
                            assert(crate::material::mat_like(gtri2.mat, b));
                            gms = gms.push(gtri1.mat).push(gtri2.mat);
                            assert(fan_mats(post) =~= fan_mats(pre).push(b).push(b));
                        }
                    } else {
                        return None;
                    }
                },
            }
            fi += 1;
        }
        proof {
            assert(obj.faces@.subrange(0, obj.faces@.len() as int) =~= obj.faces@);
        }
        if triangles.len() == 0 {
            return None;
        }
        let ghost pushed = triangles@;
        let node = crate::bvh::BvhNode::from_vec(triangles, rng);
        let bbox = node.bounding_box();
        proof {
            broadcast use vstd::seq_lib::group_to_multiset_ensures;

            lemma_geoms_multiset(crate::bvh::node_prims(node), pushed);
            let np = crate::bvh::node_prims(node);
            assert forall|i: int| 0 <= i < np.len() implies (#[trigger] np[i]) is Triangle by {
                assert(np.contains(np[i]));
                assert(np.to_multiset().count(np[i]) > 0);
                assert(pushed.to_multiset().count(np[i]) > 0);
                assert(pushed.contains(np[i]));
                let j = choose|j: int| 0 <= j < pushed.len() && pushed[j] == np[i];
                assert(pushed[j] is Triangle);
            }
            // the leaves' geometry-and-material multiset is the fan
            // zipped with the cloned bindings
            lemma_fan_lens(obj.faces@, obj.vertices@);
            lemma_binds_index(pushed);
            lemma_geoms_index(pushed);
            assert(binds_of(pushed) =~= fan_binds(obj.faces@, obj.vertices@, gms)) by {
                assert forall|k: int| 0 <= k < pushed.len() implies binds_of(pushed)[k]
                    == fan_binds(obj.faces@, obj.vertices@, gms)[k] by {
                    assert(geoms_of(pushed)[k] == prim_geom(pushed[k]));
                    assert(geoms_of(pushed)[k] == fan_of(obj.faces@, obj.vertices@)[k]);
                    assert(binds_of(pushed)[k] == prim_bind(pushed[k]));
                    assert(pushed[k]->Triangle_0.mat == gms[k]);
                }
            }
            lemma_binds_multiset(np, pushed);
            assert(exists|ms: Seq<Material>|
                #![trigger fan_binds(obj.faces@, obj.vertices@, ms)]
                {
                    &&& ms.len() == fan_of(obj.faces@, obj.vertices@).len()
                    &&& (forall|k: int|
                        0 <= k < ms.len() ==> crate::material::mat_like(
                            #[trigger] ms[k],
                            fan_mats(obj.faces@)[k],
                        ))
                    &&& binds_of(np).to_multiset() == fan_binds(
                        obj.faces@,
                        obj.vertices@,
                        ms,
                    ).to_multiset()
                }) by {
                assert(gms.len() == fan_of(obj.faces@, obj.vertices@).len());
                assert(binds_of(np).to_multiset() == fan_binds(
                    obj.faces@,
                    obj.vertices@,
                    gms,
                ).to_multiset());
            }
        }
        Some(Mesh { triangles: Box::new(node), bbox })
    }

    /// Wraps a single triangle as a mesh.
    pub fn new_triangle(t1: Vec3, t2: Vec3, t3: Vec3, mat: Option<Material>) -> (m: Mesh)
        requires
            vec_in(t1, COORD_MAX as int),
            vec_in(t2, COORD_MAX as int),
            vec_in(t3, COORD_MAX as int),
            match mat {
                Some(mt) => mat_wf(mt),
                None => true,
            },
        ensures
            mesh_wf(m),
            *m.triangles == crate::bvh::BvhNode::Leaf(
                crate::hittable::Primitive::Triangle(spec_triangle(t1, t2, t3, mat)),
            ),
            m.bbox == spec_triangle(t1, t2, t3, mat).bbox,
    {
        let tri = Triangle::new(t1, t2, t3, mat);
        let bbox = tri.bounding_box();
        let node = crate::bvh::BvhNode::Leaf(crate::hittable::Primitive::Triangle(tri));
        Mesh { triangles: Box::new(node), bbox }
    }

    /// Intersects the ray with the mesh by traversing the inner tree.
    pub fn hit<'a>(&'a self, r: &Ray, ray_t: &RaySpan) -> (res: Option<
        crate::hittable::HitRecord<'a>,
    >)
        requires
            mesh_wf(*self),
            ray_ok(*r),
            span_ok(*ray_t),
        ensures
            match res {
                None => crate::bvh::node_hit_t(*self.triangles, *r, ray_t.min@, ray_t.max@)
                    is None,
                Some(h) => {
                    &&& crate::bvh::node_hit_t(*self.triangles, *r, ray_t.min@, ray_t.max@)
                        == Some(h.t@)
                    &&& frac_ok(h.t)
                    &&& crate::hittable::rec_wf(h)
                    &&& rat_in_open(h.t@, ray_t.min@, ray_t.max@)
                    &&& h.p@.x == spec_at_axis(r.orig.x as int, r.dir.x as int, h.t@)
                    &&& h.p@.y == spec_at_axis(r.orig.y as int, r.dir.y as int, h.t@)
                    &&& h.p@.z == spec_at_axis(r.orig.z as int, r.dir.z as int, h.t@)
                    &&& match h.material {
                        Some(m) => mat_wf(*m) && crate::bvh::node_has_mat(*self.triangles, *m),
                        None => false,
                    }
                },
            },
        decreases *self,
    {
        self.triangles.hit(r, ray_t)
    }

    /// The mesh bounding box.
    pub fn bounding_box(&self) -> (b: AABB)
        ensures
            b == self.bbox,
    {
        self.bbox
    }
}

} // verus!
