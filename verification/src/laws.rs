//! The traversal laws: the tree and the linear scan agree.
//!
//! Every mesh-free primitive has at most two candidate parameters per
//! ray, fixed before any span is chosen. Each `hit` returns the least
//! candidate strictly inside the span; both the linear scan and the
//! tree traversal therefore return the least candidate over the whole
//! scene — provided the slab test of a primitive's own box passes
//! whenever the primitive reports a hit (`covered`, the guarantee the
//! padded boxes exist to provide; a hit that grazes the very boundary
//! of an unpadded box can escape its slab test, which is why it is a
//! hypothesis here). Since "least candidate" does not depend on order,
//! any tree built over any permutation of the scene, with any axis
//! choices, agrees with the scan on hit parameters.

use vstd::prelude::*;
use crate::frac::{Rat, rat_le, rat_lt, rat_eq, rat_in_open, lemma_rat_lt_trans,
    lemma_rat_le_lt_trans, lemma_rat_lt_le_trans, lemma_rat_le_trans, lemma_rat_order_total,
    lemma_rat_eq_trans};
use crate::interval::Interval;
use crate::aabb::{AABB, aabb_inside};
use crate::ray::{Ray, spec_slab, axis_t_lo, axis_t_hi, tighten_lo, tighten_hi, slab_lo,
    slab_hi};
use crate::sphere::{sph_a, sph_disc, sph_near, sph_far, sph_hit_t};
use crate::quad::{quad_det, quad_inside, quad_cand};
use crate::triangle::{tri_det, tri_inside, tri_cand};
use crate::hittable::{Primitive, prim_hit_t, prim_bbox, prim_wf};
use crate::bvh::{BvhNode, node_wf, node_bbox, node_prims, node_hit_t, lemma_leaves_in_box};
use crate::hittable_list::seq_hit_t;

verus! {

/// The primitive is not a mesh (meshes carry a tree of their own and
/// are treated by these laws only as members of an outer scene).
pub open spec fn no_mesh(p: Primitive) -> bool {
    !(p is Mesh)
}

/// `t` is a candidate hit parameter of the primitive for this ray:
/// one of the sphere's two roots, or the planar parameter of a quad or
/// triangle that passes its inside test. Candidates do not depend on
/// the query span.
pub open spec fn prim_cand_at(p: Primitive, r: Ray, t: Rat) -> bool {
    match p {
        Primitive::Sphere(s) => sph_a(r) > 0 && sph_disc(s, r) >= 0 && (t == sph_near(s, r) || t
            == sph_far(s, r)),
        Primitive::Quad(q) => quad_det(q, r) != 0 && quad_inside(q, r) && t == quad_cand(q, r),
        Primitive::Triangle(tr) => tri_det(tr, r) > 0 && tri_inside(tr, r) && t == tri_cand(
            tr,
            r,
        ),
        Primitive::Mesh(_) => false,
    }
}

/// Candidates have positive denominators.
pub proof fn lemma_cand_pos(p: Primitive, r: Ray, t: Rat)
    requires
        prim_cand_at(p, r, t),
    ensures
        t.d > 0,
{
}

/// What `hit` returns is the least candidate strictly inside the span
/// (for a mesh-free primitive).
pub proof fn lemma_prim_hit_min(p: Primitive, r: Ray, lo: Rat, hi: Rat)
    requires
        no_mesh(p),
        lo.d > 0,
        hi.d > 0,
    ensures
        match prim_hit_t(p, r, lo, hi) {
            None => forall|t: Rat| !(prim_cand_at(p, r, t) && rat_in_open(t, lo, hi)),
            Some(tm) => {
                &&& prim_cand_at(p, r, tm)
                &&& rat_in_open(tm, lo, hi)
                &&& forall|t: Rat|
                    prim_cand_at(p, r, t) && rat_in_open(t, lo, hi) ==> rat_le(tm, t)
            },
        },
{
    match p {
        Primitive::Sphere(s) => {
            if sph_a(r) > 0 && sph_disc(s, r) >= 0 {
                let near = sph_near(s, r);
                let far = sph_far(s, r);
                crate::frac::lemma_sqrt_floor_exists(sph_disc(s, r));
                assert(rat_le(near, far)) by (nonlinear_arith)
                    requires
                        near.d == sph_a(r),
                        far.d == sph_a(r),
                        near.d > 0,
                        near.n <= far.n,
                ;
                assert(rat_le(near, near));
                assert(rat_le(far, far));
                if rat_in_open(near, lo, hi) {
                    assert(sph_hit_t(s, r, lo, hi) == Some(near));
                } else if rat_in_open(far, lo, hi) {
                    assert(sph_hit_t(s, r, lo, hi) == Some(far));
                }
            }
        },
        _ => {},
    }
}

/// A bigger box only loosens one axis's entry parameter.
proof fn lemma_axis_mono(o: int, d: int, iv1: Interval, iv2: Interval)
    requires
        d != 0,
        iv2.min <= iv1.min,
        iv1.max <= iv2.max,
    ensures
        rat_le(axis_t_lo(o, d, iv2), axis_t_lo(o, d, iv1)),
        rat_le(axis_t_hi(o, d, iv1), axis_t_hi(o, d, iv2)),
{
    assert(rat_le(axis_t_lo(o, d, iv2), axis_t_lo(o, d, iv1)) && rat_le(
        axis_t_hi(o, d, iv1),
        axis_t_hi(o, d, iv2),
    )) by (nonlinear_arith)
        requires
            d != 0,
            iv2.min as int <= iv1.min as int,
            iv1.max as int <= iv2.max as int,
            axis_t_lo(o, d, iv1) == (if d > 0 {
                Rat { n: iv1.min as int - o, d: d }
            } else {
                Rat { n: o - iv1.max as int, d: -d }
            }),
            axis_t_lo(o, d, iv2) == (if d > 0 {
                Rat { n: iv2.min as int - o, d: d }
            } else {
                Rat { n: o - iv2.max as int, d: -d }
            }),
            axis_t_hi(o, d, iv1) == (if d > 0 {
                Rat { n: iv1.max as int - o, d: d }
            } else {
                Rat { n: o - iv1.min as int, d: -d }
            }),
            axis_t_hi(o, d, iv2) == (if d > 0 {
                Rat { n: iv2.max as int - o, d: d }
            } else {
                Rat { n: o - iv2.min as int, d: -d }
            }),
    ;
}

/// One tightening step is monotone: a looser incoming bound and a
/// bigger box give a looser outgoing bound.
proof fn lemma_tighten_mono(l1: Rat, l2: Rat, h1: Rat, h2: Rat, o: int, d: int, iv1: Interval, iv2: Interval)
    requires
        l1.d > 0,
        l2.d > 0,
        h1.d > 0,
        h2.d > 0,
        rat_le(l2, l1),
        rat_le(h1, h2),
        iv2.min <= iv1.min,
        iv1.max <= iv2.max,
    ensures
        rat_le(tighten_lo(l2, o, d, iv2), tighten_lo(l1, o, d, iv1)),
        rat_le(tighten_hi(h1, o, d, iv1), tighten_hi(h2, o, d, iv2)),
        tighten_lo(l1, o, d, iv1).d > 0,
        tighten_lo(l2, o, d, iv2).d > 0,
        tighten_hi(h1, o, d, iv1).d > 0,
        tighten_hi(h2, o, d, iv2).d > 0,
{
    if d != 0 {
        lemma_axis_mono(o, d, iv1, iv2);
        let a1 = axis_t_lo(o, d, iv1);
        let a2 = axis_t_lo(o, d, iv2);
        let b1 = axis_t_hi(o, d, iv1);
        let b2 = axis_t_hi(o, d, iv2);
        lemma_rat_order_total(l1, a1);
        lemma_rat_order_total(l2, a2);
        lemma_rat_order_total(h1, b1);
        lemma_rat_order_total(h2, b2);
        // lower: max(l2, a2) <= max(l1, a1)
        if rat_lt(l2, a2) {
            if rat_lt(l1, a1) {
            } else {
                lemma_rat_le_trans(a2, a1, l1);
            }
        } else {
            if rat_lt(l1, a1) {
                lemma_rat_le_lt_trans(l2, l1, a1);
                lemma_rat_order_total(l2, a1);
            }
        }
        // upper: min(h1, b1) <= min(h2, b2)
        if rat_lt(b1, h1) {
            if rat_lt(b2, h2) {
            } else {
                lemma_rat_lt_le_trans(b1, h1, h2);
                lemma_rat_order_total(b1, h2);
            }
        } else {
            if rat_lt(b2, h2) {
                lemma_rat_le_trans(h1, b1, b2);
            }
        }
    }
}

/// The primitive's box sees every hit the primitive reports: whenever
/// a candidate lies strictly inside a span, the slab test of the
/// primitive's own box passes for that span. The padded boxes provide
/// this in all but knife-edge cases (a hit exactly on the boundary of
/// an unpadded box); it is the hypothesis under which pruning is
/// complete.
pub open spec fn covered(p: Primitive, r: Ray) -> bool {
    forall|lo: Rat, hi: Rat, t: Rat|
        #![trigger prim_cand_at(p, r, t), rat_in_open(t, lo, hi)]
        prim_cand_at(p, r, t) && rat_in_open(t, lo, hi) && lo.d > 0 && hi.d > 0 ==> spec_slab(
            r,
            prim_bbox(p),
            lo,
            hi,
        )
}

/// Every primitive of the scene is well-formed, mesh-free, and covered
/// by its own box for this ray.
pub open spec fn scene_ok(s: Seq<Primitive>, r: Ray) -> bool {
    forall|i: int|
        0 <= i < s.len() ==> covered(#[trigger] s[i], r) && no_mesh(s[i]) && prim_wf(s[i])
}

/// `res` is the least candidate of the scene strictly inside the span:
/// nothing, and no primitive has a candidate there; or a parameter
/// that is a candidate of some primitive, lies strictly inside, and is
/// at most every candidate of every primitive inside the span.
pub open spec fn is_best(res: Option<Rat>, s: Seq<Primitive>, r: Ray, lo: Rat, hi: Rat) -> bool {
    match res {
        None => forall|i: int, t: Rat|
            #![trigger prim_cand_at(s[i], r, t)]
            0 <= i < s.len() ==> !(prim_cand_at(s[i], r, t) && rat_in_open(t, lo, hi)),
        Some(tm) => {
            &&& tm.d > 0
            &&& rat_in_open(tm, lo, hi)
            &&& exists|i: int| 0 <= i < s.len() && prim_cand_at(#[trigger] s[i], r, tm)
            &&& forall|i: int, t: Rat|
                #![trigger prim_cand_at(s[i], r, t)]
                0 <= i < s.len() && prim_cand_at(s[i], r, t) && rat_in_open(t, lo, hi) ==> rat_le(
                    tm,
                    t,
                )
        },
    }
}

/// Combining two least candidates the way the traversal and the scan
/// do — the second searched below the first — gives the least
/// candidate of the concatenation.
proof fn lemma_best_combine(
    ra: Option<Rat>,
    rb: Option<Rat>,
    sa: Seq<Primitive>,
    sb: Seq<Primitive>,
    r: Ray,
    lo: Rat,
    hi: Rat,
)
    requires
        lo.d > 0,
        hi.d > 0,
        is_best(ra, sa, r, lo, hi),
        is_best(
            rb,
            sb,
            r,
            lo,
            match ra {
                Some(t) => t,
                None => hi,
            },
        ),
    ensures
        is_best(
            match rb {
                Some(t) => Some(t),
                None => ra,
            },
            sa + sb,
            r,
            lo,
            hi,
        ),
{
    let s = sa + sb;
    assert(forall|i: int| 0 <= i < sa.len() ==> s[i] == sa[i]);
    assert(forall|j: int| 0 <= j < sb.len() ==> s[sa.len() + j] == sb[j]);
    match ra {
        Some(ta) => {
            match rb {
                Some(tb) => {
                    lemma_rat_lt_trans(tb, ta, hi);
                    let j = choose|j: int| 0 <= j < sb.len() && prim_cand_at(sb[j], r, tb);
                    assert(s[sa.len() + j] == sb[j]);
                    assert(exists|i: int| 0 <= i < s.len() && prim_cand_at(#[trigger] s[i], r, tb));
                    assert forall|i: int, t: Rat|
                        0 <= i < s.len() && #[trigger] prim_cand_at(s[i], r, t) && rat_in_open(
                            t,
                            lo,
                            hi,
                        ) implies rat_le(tb, t) by {
                        lemma_cand_pos(s[i], r, t);
                        if i < sa.len() {
                            assert(prim_cand_at(sa[i], r, t));
                            assert(rat_le(ta, t));
                            lemma_rat_lt_le_trans(tb, ta, t);
                            lemma_rat_order_total(tb, t);
                        } else {
                            assert(prim_cand_at(sb[i - sa.len()], r, t));
                            lemma_rat_order_total(t, ta);
                            if rat_lt(t, ta) {
                                assert(rat_in_open(t, lo, ta));
                                assert(rat_le(tb, t));
                            } else {
                                lemma_rat_lt_le_trans(tb, ta, t);
                                lemma_rat_order_total(tb, t);
                            }
                        }
                    }
                },
                None => {
                    let j = choose|j: int| 0 <= j < sa.len() && prim_cand_at(sa[j], r, ta);
                    assert(exists|i: int| 0 <= i < s.len() && prim_cand_at(#[trigger] s[i], r, ta));
                    assert forall|i: int, t: Rat|
                        0 <= i < s.len() && #[trigger] prim_cand_at(s[i], r, t) && rat_in_open(
                            t,
                            lo,
                            hi,
                        ) implies rat_le(ta, t) by {
                        lemma_cand_pos(s[i], r, t);
                        if i < sa.len() {
                            assert(prim_cand_at(sa[i], r, t));
                        } else {
                            assert(prim_cand_at(sb[i - sa.len()], r, t));
                            assert(!(rat_in_open(t, lo, ta)));
                            lemma_rat_order_total(t, ta);
                        }
                    }
                },
            }
        },
        None => {
            match rb {
                Some(tb) => {
                    let j = choose|j: int| 0 <= j < sb.len() && prim_cand_at(sb[j], r, tb);
                    assert(s[sa.len() + j] == sb[j]);
                    assert(exists|i: int| 0 <= i < s.len() && prim_cand_at(#[trigger] s[i], r, tb));
                    assert forall|i: int, t: Rat|
                        0 <= i < s.len() && #[trigger] prim_cand_at(s[i], r, t) && rat_in_open(
                            t,
                            lo,
                            hi,
                        ) implies rat_le(tb, t) by {
                        if i < sa.len() {
                            assert(prim_cand_at(sa[i], r, t));
                            assert(false);
                        } else {
                            assert(prim_cand_at(sb[i - sa.len()], r, t));
                        }
                    }
                },
                None => {
                    assert forall|i: int, t: Rat|
                        0 <= i < s.len() implies !(#[trigger] prim_cand_at(s[i], r, t)
                        && rat_in_open(t, lo, hi)) by {
                        if i < sa.len() {
                            assert(s[i] == sa[i]);
                        } else {
                            assert(s[i] == sb[i - sa.len()]);
                        }
                    }
                },
            }
        },
    }
}

/// Traversal returns the least candidate of the leaves strictly
/// inside the span, for any tree over covered, mesh-free primitives.
pub proof fn lemma_node_hit_min(n: BvhNode, r: Ray, lo: Rat, hi: Rat)
    requires
        node_wf(n),
        lo.d > 0,
        hi.d > 0,
        scene_ok(node_prims(n), r),
    ensures
        is_best(node_hit_t(n, r, lo, hi), node_prims(n), r, lo, hi),
    decreases n,
{
    let s = node_prims(n);
    if !spec_slab(r, node_bbox(n), lo, hi) {
        lemma_leaves_in_box(n);
        assert forall|i: int, t: Rat|
            0 <= i < s.len() implies !(#[trigger] prim_cand_at(s[i], r, t) && rat_in_open(
            t,
            lo,
            hi,
        )) by {
            if prim_cand_at(s[i], r, t) && rat_in_open(t, lo, hi) {
                assert(covered(s[i], r));
                assert(spec_slab(r, prim_bbox(s[i]), lo, hi));
                lemma_slab_mono(r, prim_bbox(s[i]), node_bbox(n), lo, hi);
            }
        }
    } else {
        match n {
            BvhNode::Leaf(p) => {
                assert(s =~= seq![p]);
                assert(s[0] == p);
                lemma_prim_hit_min(p, r, lo, hi);
                match prim_hit_t(p, r, lo, hi) {
                    Some(tm) => {
                        lemma_cand_pos(p, r, tm);
                        assert(exists|i: int|
                            0 <= i < s.len() && prim_cand_at(#[trigger] s[i], r, tm));
                    },
                    None => {},
                }
            },
            BvhNode::Node { left, right, .. } => {
                let sl = node_prims(*left);
                let sr = node_prims(*right);
                assert(s =~= sl + sr);
                assert(forall|i: int| 0 <= i < sl.len() ==> sl[i] == s[i]);
                assert(forall|j: int| 0 <= j < sr.len() ==> sr[j] == s[sl.len() + j]);
                assert(scene_ok(sl, r));
                assert(scene_ok(sr, r));
                lemma_node_hit_min(*left, r, lo, hi);
                let ra = node_hit_t(*left, r, lo, hi);
                let clip = match ra {
                    Some(t) => t,
                    None => hi,
                };
                match ra {
                    Some(ta) => {
                        lemma_node_hit_min(*right, r, lo, ta);
                    },
                    None => {
                        lemma_node_hit_min(*right, r, lo, hi);
                    },
                }
                let rb = node_hit_t(*right, r, lo, clip);
                lemma_best_combine(ra, rb, sl, sr, r, lo, hi);
            },
        }
    }
}

/// The linear scan returns the least candidate of the scene strictly
/// inside the span.
pub proof fn lemma_seq_hit_min(s: Seq<Primitive>, r: Ray, lo: Rat, hi: Rat)
    requires
        lo.d > 0,
        hi.d > 0,
        scene_ok(s, r),
    ensures
        is_best(seq_hit_t(s, r, lo, hi), s, r, lo, hi),
    decreases s.len(),
{
    if s.len() == 0 {
    } else {
        let sa = seq![s[0]];
        let sb = s.drop_first();
        assert(s =~= sa + sb);
        lemma_prim_hit_min(s[0], r, lo, hi);
        let ra = prim_hit_t(s[0], r, lo, hi);
        // the head's least candidate is the least candidate of the
        // singleton sequence
        assert(sa[0] == s[0]);
        match ra {
            Some(tm) => {
                lemma_cand_pos(s[0], r, tm);
                assert(exists|i: int| 0 <= i < sa.len() && prim_cand_at(#[trigger] sa[i], r, tm));
                assert(is_best(ra, sa, r, lo, hi));
            },
            None => {
                assert(is_best(ra, sa, r, lo, hi));
            },
        }
        let clip = match ra {
            Some(t) => t,
            None => hi,
        };
        assert(scene_ok(sb, r)) by {
            assert(forall|i: int| 0 <= i < sb.len() ==> sb[i] == s[i + 1]);
        }
        match ra {
            Some(ta) => {
                lemma_seq_hit_min(sb, r, lo, ta);
            },
            None => {
                lemma_seq_hit_min(sb, r, lo, hi);
            },
        }
        let rb = seq_hit_t(sb, r, lo, clip);
        lemma_best_combine(ra, rb, sa, sb, r, lo, hi);
    }
}

/// Two least candidates of permuted scenes agree in value: candidates
/// only depend on which primitives are present.
proof fn lemma_best_unique(
    r1: Option<Rat>,
    r2: Option<Rat>,
    s1: Seq<Primitive>,
    s2: Seq<Primitive>,
    r: Ray,
    lo: Rat,
    hi: Rat,
)
    requires
        lo.d > 0,
        hi.d > 0,
        s1.to_multiset() == s2.to_multiset(),
        is_best(r1, s1, r, lo, hi),
        is_best(r2, s2, r, lo, hi),
    ensures
        match (r1, r2) {
            (None, None) => true,
            (Some(t1), Some(t2)) => rat_eq(t1, t2),
            _ => false,
        },
{
    broadcast use vstd::seq_lib::group_to_multiset_ensures;

    assert forall|p: Primitive| s1.contains(p) implies s2.contains(p) by {
        assert(s1.to_multiset().count(p) > 0);
        assert(s2.to_multiset().count(p) > 0);
    }
    assert forall|p: Primitive| s2.contains(p) implies s1.contains(p) by {
        assert(s2.to_multiset().count(p) > 0);
        assert(s1.to_multiset().count(p) > 0);
    }
    match (r1, r2) {
        (None, None) => {},
        (Some(t1), Some(t2)) => {
            let i1 = choose|i: int| 0 <= i < s1.len() && prim_cand_at(s1[i], r, t1);
            assert(s1.contains(s1[i1]));
            let j1 = choose|j: int| 0 <= j < s2.len() && s2[j] == s1[i1];
            assert(prim_cand_at(s2[j1], r, t1));
            assert(rat_le(t2, t1));
            let i2 = choose|i: int| 0 <= i < s2.len() && prim_cand_at(s2[i], r, t2);
            assert(s2.contains(s2[i2]));
            let j2 = choose|j: int| 0 <= j < s1.len() && s1[j] == s2[i2];
            assert(prim_cand_at(s1[j2], r, t2));
            assert(rat_le(t1, t2));
            lemma_rat_order_total(t1, t2);
        },
        (Some(t1), None) => {
            let i1 = choose|i: int| 0 <= i < s1.len() && prim_cand_at(s1[i], r, t1);
            assert(s1.contains(s1[i1]));
            let j1 = choose|j: int| 0 <= j < s2.len() && s2[j] == s1[i1];
            assert(prim_cand_at(s2[j1], r, t1));
        },
        (None, Some(t2)) => {
            let i2 = choose|i: int| 0 <= i < s2.len() && prim_cand_at(s2[i], r, t2);
            assert(s2.contains(s2[i2]));
            let j2 = choose|j: int| 0 <= j < s1.len() && s1[j] == s2[i2];
            assert(prim_cand_at(s1[j2], r, t2));
        },
    }
}

/// Traversal of a tree built over any permutation of a scene of
/// covered, mesh-free primitives agrees with the brute-force linear
/// scan of the scene: they hit and miss together, and report equal
/// parameters.
pub proof fn lemma_bvh_matches_scan(n: BvhNode, s: Seq<Primitive>, r: Ray, lo: Rat, hi: Rat)
    requires
        node_wf(n),
        lo.d > 0,
        hi.d > 0,
        node_prims(n).to_multiset() == s.to_multiset(),
        scene_ok(s, r),
    ensures
        match (node_hit_t(n, r, lo, hi), seq_hit_t(s, r, lo, hi)) {
            (None, None) => true,
            (Some(t1), Some(t2)) => rat_eq(t1, t2) && t1.d > 0 && t2.d > 0,
            _ => false,
        },
{
    broadcast use vstd::seq_lib::group_to_multiset_ensures;

    assert(scene_ok(node_prims(n), r)) by {
        let sn = node_prims(n);
        assert forall|i: int| 0 <= i < sn.len() implies covered(#[trigger] sn[i], r) && no_mesh(
            sn[i],
        ) && prim_wf(sn[i]) by {
            assert(sn.contains(sn[i]));
            assert(sn.to_multiset().count(sn[i]) > 0);
            assert(s.to_multiset().count(sn[i]) > 0);
            assert(s.contains(sn[i]));
            let j = choose|j: int| 0 <= j < s.len() && s[j] == sn[i];
            assert(covered(s[j], r));
        }
    }
    lemma_node_hit_min(n, r, lo, hi);
    lemma_seq_hit_min(s, r, lo, hi);
    lemma_best_unique(node_hit_t(n, r, lo, hi), seq_hit_t(s, r, lo, hi), node_prims(n), s, r, lo, hi);
}

/// Building twice gives the same traversal results: any two trees over
/// permutations of the same scene — whatever axes their builds drew —
/// hit and miss together and report equal parameters.
pub proof fn lemma_build_axis_independent(
    n1: BvhNode,
    n2: BvhNode,
    s: Seq<Primitive>,
    r: Ray,
    lo: Rat,
    hi: Rat,
)
    requires
        node_wf(n1),
        node_wf(n2),
        lo.d > 0,
        hi.d > 0,
        node_prims(n1).to_multiset() == s.to_multiset(),
        node_prims(n2).to_multiset() == s.to_multiset(),
        scene_ok(s, r),
    ensures
        match (node_hit_t(n1, r, lo, hi), node_hit_t(n2, r, lo, hi)) {
            (None, None) => true,
            (Some(t1), Some(t2)) => rat_eq(t1, t2),
            _ => false,
        },
{
    lemma_bvh_matches_scan(n1, s, r, lo, hi);
    lemma_bvh_matches_scan(n2, s, r, lo, hi);
    match (node_hit_t(n1, r, lo, hi), node_hit_t(n2, r, lo, hi), seq_hit_t(s, r, lo, hi)) {
        (Some(t1), Some(t2), Some(ts)) => {
            lemma_seq_hit_min(s, r, lo, hi);
            lemma_rat_eq_sym_trans(t1, ts, t2);
        },
        _ => {},
    }
}

/// Value equality of rationals is symmetric and transitive over
/// positive denominators.
proof fn lemma_rat_eq_sym_trans(a: Rat, b: Rat, c: Rat)
    requires
        a.d > 0,
        b.d > 0,
        c.d > 0,
        rat_eq(a, b),
        rat_eq(c, b),
    ensures
        rat_eq(a, c),
{
    assert(rat_eq(b, c)) by (nonlinear_arith)
        requires
            rat_eq(c, b),
    ;
    lemma_rat_eq_trans(a, b, c);
}

/// The ray coordinate is monotone in the parameter when the direction
/// component is nonnegative.
proof fn lemma_at_mono(o: int, d: int, s: Rat, t: Rat)
    requires
        s.d > 0,
        t.d > 0,
        d >= 0,
        rat_le(s, t),
    ensures
        rat_le(crate::ray::spec_at_axis(o, d, s), crate::ray::spec_at_axis(o, d, t)),
{
    assert((o * s.d + s.n * d) * t.d == o * (s.d * t.d) + d * (s.n * t.d)) by (nonlinear_arith);
    assert((o * t.d + t.n * d) * s.d == o * (s.d * t.d) + d * (t.n * s.d)) by (nonlinear_arith);
    assert(d * (s.n * t.d) <= d * (t.n * s.d)) by (nonlinear_arith)
        requires
            d >= 0,
            s.n * t.d <= t.n * s.d,
    ;
}

/// The ray coordinate is antitone in the parameter when the direction
/// component is negative.
proof fn lemma_at_anti(o: int, d: int, s: Rat, t: Rat)
    requires
        s.d > 0,
        t.d > 0,
        d < 0,
        rat_le(s, t),
    ensures
        rat_le(crate::ray::spec_at_axis(o, d, t), crate::ray::spec_at_axis(o, d, s)),
{
    assert((o * s.d + s.n * d) * t.d == o * (s.d * t.d) + d * (s.n * t.d)) by (nonlinear_arith);
    assert((o * t.d + t.n * d) * s.d == o * (s.d * t.d) + d * (t.n * s.d)) by (nonlinear_arith);
    assert(d * (t.n * s.d) <= d * (s.n * t.d)) by (nonlinear_arith)
        requires
            d < 0,
            s.n * t.d <= t.n * s.d,
    ;
}

/// Moving along the ray between two parameters whose points are inside
/// a closed interval keeps the point inside: the coordinate is a
/// monotone (affine) function of the parameter.
proof fn lemma_between_in_closed(o: int, d: int, iv: Interval, t1: Rat, t2: Rat, t: Rat)
    requires
        t1.d > 0,
        t2.d > 0,
        t.d > 0,
        rat_le(t1, t),
        rat_le(t, t2),
        crate::ray::rat_in_closed(crate::ray::spec_at_axis(o, d, t1), iv),
        crate::ray::rat_in_closed(crate::ray::spec_at_axis(o, d, t2), iv),
    ensures
        crate::ray::rat_in_closed(crate::ray::spec_at_axis(o, d, t), iv),
{
    let a1 = crate::ray::spec_at_axis(o, d, t1);
    let a2 = crate::ray::spec_at_axis(o, d, t2);
    let at = crate::ray::spec_at_axis(o, d, t);
    if d >= 0 {
        lemma_at_mono(o, d, t1, t);
        lemma_at_mono(o, d, t, t2);
        lemma_rat_le_trans(crate::frac::rat_int(iv.min as int), a1, at);
        lemma_rat_le_trans(at, a2, crate::frac::rat_int(iv.max as int));
    } else {
        lemma_at_anti(o, d, t1, t);
        lemma_at_anti(o, d, t, t2);
        lemma_rat_le_trans(crate::frac::rat_int(iv.min as int), a2, at);
        lemma_rat_le_trans(at, a1, crate::frac::rat_int(iv.max as int));
    }
}

/// The midpoint of two rationals lies strictly between them.
proof fn lemma_rat_mid(a: Rat, b: Rat) -> (m: Rat)
    requires
        a.d > 0,
        b.d > 0,
        rat_lt(a, b),
    ensures
        m.d > 0,
        rat_lt(a, m),
        rat_lt(m, b),
{
    let m = Rat { n: a.n * b.d + b.n * a.d, d: 2 * a.d * b.d };
    assert(m.d > 0 && rat_lt(a, m) && rat_lt(m, b)) by (nonlinear_arith)
        requires
            a.d > 0,
            b.d > 0,
            rat_lt(a, b),
            m == (Rat { n: a.n * b.d + b.n * a.d, d: 2 * a.d * b.d }),
    ;
    m
}

/// A sphere is covered by its own box whenever its two roots are
/// distinct (a non-tangent intersection): both computed roots have
/// their points inside the closed box, so around any reported root
/// there is a chord of in-box points, and the slab test must pass.
/// (A ray exactly tangent to the sphere has a single boundary point,
/// which the unpadded box can miss; such rays are excluded.)
pub proof fn lemma_sphere_covered(sp: crate::sphere::Sphere, r: Ray)
    requires
        crate::sphere::sphere_wf(sp),
        vec_in_origin(r),
        sph_a(r) > 0 && sph_disc(sp, r) >= 0 ==> crate::frac::sqrt_floor(sph_disc(sp, r)) >= 1,
    ensures
        covered(Primitive::Sphere(sp), r),
{
    let p = Primitive::Sphere(sp);
    assert forall|lo: Rat, hi: Rat, t: Rat|
        prim_cand_at(p, r, t) && #[trigger] rat_in_open(t, lo, hi) && lo.d > 0 && hi.d
            > 0 implies spec_slab(r, prim_bbox(p), lo, hi) by {
        if prim_cand_at(p, r, t) && rat_in_open(t, lo, hi) && lo.d > 0 && hi.d > 0 {
            let near = sph_near(sp, r);
            let far = sph_far(sp, r);
            crate::frac::lemma_sqrt_floor_exists(sph_disc(sp, r));
            crate::sphere::lemma_sphere_hit_inside(sp, r, near);
            crate::sphere::lemma_sphere_hit_inside(sp, r, far);
            assert(rat_lt(near, far)) by (nonlinear_arith)
                requires
                    near.d == sph_a(r),
                    far.d == sph_a(r),
                    near.d > 0,
                    far.n - near.n >= 2,
            ;
            let bb = prim_bbox(p);
            assert(bb == crate::sphere::sphere_bbox(sp.center, sp.radius));
            // build a nondegenerate chord around the reported root,
            // strictly inside the span and between the two roots
            let (t1, t2): (Rat, Rat) = if t == near {
                let m_hi = lemma_rat_mid(t, hi);
                lemma_rat_order_total(m_hi, far);
                if rat_lt(m_hi, far) {
                    (t, m_hi)
                } else {
                    lemma_rat_le_lt_trans(far, m_hi, hi);
                    (t, far)
                }
            } else {
                let m_lo = lemma_rat_mid(lo, t);
                lemma_rat_order_total(near, m_lo);
                if rat_lt(near, m_lo) {
                    (m_lo, t)
                } else {
                    lemma_rat_lt_le_trans(lo, m_lo, near);
                    (near, t)
                }
            };
            // chord ends are inside the open span
            assert(rat_lt(lo, t1) && rat_lt(t1, hi)) by {
                if t == near {
                } else {
                    lemma_rat_lt_trans(t1, t, hi);
                }
            }
            assert(rat_lt(lo, t2) && rat_lt(t2, hi)) by {
                if t == near {
                    lemma_rat_lt_trans(lo, t, t2);
                } else {
                }
            }
            assert(rat_lt(t1, t2));
            // chord ends lie between the roots, hence inside the box
            assert(rat_le(near, t1) && rat_le(t1, far)) by {
                lemma_rat_order_total(near, far);
                if t == near {
                } else {
                    if rat_lt(near, t1) {
                        lemma_rat_order_total(near, t1);
                    }
                    lemma_rat_lt_le_trans(t1, t, far);
                    lemma_rat_order_total(t1, far);
                }
            }
            assert(rat_le(near, t2) && rat_le(t2, far)) by {
                lemma_rat_order_total(near, far);
                if t == near {
                    lemma_rat_lt_le_trans(near, t2, far);
                    lemma_rat_order_total(near, t2);
                    if rat_lt(t2, far) {
                        lemma_rat_order_total(t2, far);
                    }
                } else {
                }
            }
            lemma_between_in_closed(r.orig.x as int, r.dir.x as int, bb.x, near, far, t1);
            lemma_between_in_closed(r.orig.y as int, r.dir.y as int, bb.y, near, far, t1);
            lemma_between_in_closed(r.orig.z as int, r.dir.z as int, bb.z, near, far, t1);
            lemma_between_in_closed(r.orig.x as int, r.dir.x as int, bb.x, near, far, t2);
            lemma_between_in_closed(r.orig.y as int, r.dir.y as int, bb.y, near, far, t2);
            lemma_between_in_closed(r.orig.z as int, r.dir.z as int, bb.z, near, far, t2);
            crate::ray::lemma_slab_complete(r, bb, lo, hi, t1, t2);
        }
    }
}

/// For a scene of well-formed spheres none of which the ray meets
/// tangentially, traversal of any tree over any permutation agrees
/// with the linear scan outright: the coverage hypothesis is a proved
/// fact of spheres here, not an assumption.
pub proof fn lemma_sphere_scene_equivalence(
    n: BvhNode,
    s: Seq<Primitive>,
    r: Ray,
    lo: Rat,
    hi: Rat,
)
    requires
        node_wf(n),
        lo.d > 0,
        hi.d > 0,
        node_prims(n).to_multiset() == s.to_multiset(),
        vec_in_origin(r),
        forall|i: int|
            0 <= i < s.len() ==> (#[trigger] s[i]) is Sphere && crate::sphere::sphere_wf(
                s[i]->Sphere_0,
            ) && (sph_a(r) > 0 && sph_disc(s[i]->Sphere_0, r) >= 0
                ==> crate::frac::sqrt_floor(sph_disc(s[i]->Sphere_0, r)) >= 1),
    ensures
        match (node_hit_t(n, r, lo, hi), seq_hit_t(s, r, lo, hi)) {
            (None, None) => true,
            (Some(t1), Some(t2)) => rat_eq(t1, t2),
            _ => false,
        },
{
    assert forall|i: int| 0 <= i < s.len() implies covered(#[trigger] s[i], r) && no_mesh(s[i])
        && prim_wf(s[i]) by {
        lemma_sphere_covered(s[i]->Sphere_0, r);
    }
    lemma_bvh_matches_scan(n, s, r, lo, hi);
}

/// The ray origin and direction are within their budgets.
pub open spec fn vec_in_origin(r: Ray) -> bool {
    crate::vec3::vec_in(r.orig, crate::ORIGIN_MAX as int) && crate::vec3::vec_in(
        r.dir,
        crate::COORD_MAX as int,
    )
}

/// Slab-test monotonicity: if the test passes for a box, it passes for
/// any box containing it.
pub proof fn lemma_slab_mono(r: Ray, b1: AABB, b2: AABB, lo: Rat, hi: Rat)
    requires
        lo.d > 0,
        hi.d > 0,
        aabb_inside(b1, b2),
        spec_slab(r, b1, lo, hi),
    ensures
        spec_slab(r, b2, lo, hi),
{
    let ox = r.orig.x as int;
    let oy = r.orig.y as int;
    let oz = r.orig.z as int;
    let dx = r.dir.x as int;
    let dy = r.dir.y as int;
    let dz = r.dir.z as int;
    let l1x = tighten_lo(lo, ox, dx, b1.x);
    let l1y = tighten_lo(l1x, oy, dy, b1.y);
    let l2x = tighten_lo(lo, ox, dx, b2.x);
    let l2y = tighten_lo(l2x, oy, dy, b2.y);
    let h1x = tighten_hi(hi, ox, dx, b1.x);
    let h1y = tighten_hi(h1x, oy, dy, b1.y);
    let h2x = tighten_hi(hi, ox, dx, b2.x);
    let h2y = tighten_hi(h2x, oy, dy, b2.y);
    assert(rat_le(lo, lo) && rat_le(hi, hi));
    lemma_tighten_mono(lo, lo, hi, hi, ox, dx, b1.x, b2.x);
    lemma_tighten_mono(l1x, l2x, h1x, h2x, oy, dy, b1.y, b2.y);
    lemma_tighten_mono(l1y, l2y, h1y, h2y, oz, dz, b1.z, b2.z);
    lemma_rat_le_lt_trans(slab_lo(r, b2, lo), slab_lo(r, b1, lo), slab_hi(r, b1, hi));
    lemma_rat_lt_le_trans(slab_lo(r, b2, lo), slab_hi(r, b1, hi), slab_hi(r, b2, hi));
}

} // verus!
