//! The bounding-volume hierarchy: recursive build and traversal.
//!
//! A node is a leaf holding one primitive, or an internal node holding
//! two children and the union of their boxes. Traversal prunes by the
//! exact slab test, descends left with the full span, then right with
//! the span clipped to the left hit, and returns the right hit if any,
//! else the left: the right traversal's upper bound was already
//! clipped, so this is the closer of the two.
//!
//! The build sorts the primitives by the low bound of their boxes on a
//! uniformly random axis, splits in the middle, and recurses; its
//! contract says the leaves are a permutation of the input, which is
//! what the traversal equivalence (see `laws`) rests on.

use vstd::prelude::*;
use vstd::seq_lib::group_to_multiset_ensures;
use vstd::seq_lib::lemma_multiset_commutative;
use crate::frac::{Rat, frac_ok, rat_in_open, lemma_rat_lt_trans};
use crate::vec3::RatVec3;
use crate::interval::RaySpan;
use crate::aabb::{AABB, spec_aabb_union, aabb_in, aabb_inside};
use crate::ray::{Ray, ray_ok, spec_slab, spec_at_axis, BOX_MAX};
use crate::hittable::{Primitive, prim_hit_t, prim_wf, prim_bbox, HitRecord, rec_wf,
    lemma_prim_bbox_in_box};
use crate::rng::rng_below;
use crate::material::mat_wf;
use rand::rngs::ThreadRng;

verus! {

/// A node of the hierarchy: a single primitive, or two children under
/// the union of their boxes.
pub enum BvhNode {
    Leaf(Primitive),
    Node { left: Box<BvhNode>, right: Box<BvhNode>, bbox: AABB },
}

/// The box of a node: the leaf primitive's box, or the stored union.
pub open spec fn node_bbox(n: BvhNode) -> AABB {
    match n {
        BvhNode::Leaf(p) => prim_bbox(p),
        BvhNode::Node { bbox, .. } => bbox,
    }
}

/// Well-formedness of a tree: every leaf primitive is well-formed and
/// every internal box is the union of its children's boxes.
pub open spec fn node_wf(n: BvhNode) -> bool
    decreases n,
{
    match n {
        BvhNode::Leaf(p) => prim_wf(p),
        BvhNode::Node { left, right, bbox } => node_wf(*left) && node_wf(*right) && bbox
            == spec_aabb_union(node_bbox(*left), node_bbox(*right)),
    }
}

/// The primitives at the leaves, in tree order.
pub open spec fn node_prims(n: BvhNode) -> Seq<Primitive>
    decreases n,
{
    match n {
        BvhNode::Leaf(p) => seq![p],
        BvhNode::Node { left, right, .. } => node_prims(*left) + node_prims(*right),
    }
}

/// Some leaf of the tree carries this material.
pub open spec fn node_has_mat(n: BvhNode, m: crate::material::Material) -> bool
    decreases n, 1int,
{
    match n {
        BvhNode::Leaf(p) => crate::hittable::prim_mat_src(p, m),
        BvhNode::Node { left, right, .. } => node_has_mat(*left, m) || node_has_mat(*right, m),
    }
}

/// The parameter at which traversal reports a hit: nothing if the slab
/// test fails on the node box; a leaf defers to its primitive; an
/// internal node takes the left hit, clips the span, and lets a right
/// hit take precedence.
pub open spec fn node_hit_t(n: BvhNode, r: Ray, lo: Rat, hi: Rat) -> Option<Rat>
    decreases n, 1int,
{
    if !spec_slab(r, node_bbox(n), lo, hi) {
        None
    } else {
        match n {
            BvhNode::Leaf(p) => prim_hit_t(p, r, lo, hi),
            BvhNode::Node { left, right, .. } => {
                let lt = node_hit_t(*left, r, lo, hi);
                let clipped = match lt {
                    Some(t) => t,
                    None => hi,
                };
                match node_hit_t(*right, r, lo, clipped) {
                    Some(t) => Some(t),
                    None => lt,
                }
            },
        }
    }
}

/// All boxes in a well-formed tree are within the box budget.
pub proof fn lemma_node_bbox_in_box(n: BvhNode)
    requires
        node_wf(n),
    ensures
        aabb_in(node_bbox(n), BOX_MAX as int),
    decreases n,
{
    match n {
        BvhNode::Leaf(p) => {
            lemma_prim_bbox_in_box(p);
        },
        BvhNode::Node { left, right, .. } => {
            lemma_node_bbox_in_box(*left);
            lemma_node_bbox_in_box(*right);
        },
    }
}

/// The build's sort key: the low bound of the primitive's box on the
/// chosen axis.
pub open spec fn axis_key(p: Primitive, axis: int) -> int {
    prim_bbox(p).spec_axis(axis).min as int
}

/// The build's sort key, executable.
fn axis_min(p: &Primitive, axis: usize) -> (k: i64)
    requires
        prim_wf(*p),
    ensures
        k as int == axis_key(*p, axis as int),
{
    p.bounding_box().axis(axis).min
}

/// Sorts primitives by the low bound of their boxes on an axis,
/// returning a sorted permutation (selection of the minimum).
fn sort_by_axis(v: Vec<Primitive>, axis: usize) -> (r: Vec<Primitive>)
    requires
        forall|i: int| 0 <= i < v@.len() ==> prim_wf(#[trigger] v@[i]),
    ensures
        r@.to_multiset() == v@.to_multiset(),
        r@.len() == v@.len(),
        forall|i: int| 0 <= i < r@.len() ==> prim_wf(#[trigger] r@[i]),
        forall|i: int, j: int|
            0 <= i < j < r@.len() ==> axis_key(r@[i], axis as int) <= axis_key(
                r@[j],
                axis as int,
            ),
{
    let mut src = v;
    let mut out: Vec<Primitive> = Vec::new();
    proof {
        broadcast use group_to_multiset_ensures;

        assert(out@.to_multiset().add(src@.to_multiset()) =~= v@.to_multiset());
    }
    while src.len() > 0
        invariant
            out@.to_multiset().add(src@.to_multiset()) == v@.to_multiset(),
            out@.len() + src@.len() == v@.len(),
            forall|i: int| 0 <= i < src@.len() ==> prim_wf(#[trigger] src@[i]),
            forall|i: int| 0 <= i < out@.len() ==> prim_wf(#[trigger] out@[i]),
            forall|i: int, j: int|
                0 <= i < j < out@.len() ==> axis_key(out@[i], axis as int) <= axis_key(
                    out@[j],
                    axis as int,
                ),
            forall|i: int, j: int|
                #![trigger out@[i], src@[j]]
                0 <= i < out@.len() && 0 <= j < src@.len() ==> axis_key(out@[i], axis as int)
                    <= axis_key(src@[j], axis as int),
        decreases src@.len(),
    {
        let mut mi: usize = 0;
        let mut k: usize = 1;
        while k < src.len()
            invariant
                0 < src@.len(),
                mi < k,
                k <= src@.len(),
                forall|i: int| 0 <= i < src@.len() ==> prim_wf(#[trigger] src@[i]),
                forall|j: int|
                    0 <= j < k ==> axis_key(src@[mi as int], axis as int) <= axis_key(
                        #[trigger] src@[j],
                        axis as int,
                    ),
            decreases src@.len() - k,
        {
            if axis_min(&src[k], axis) < axis_min(&src[mi], axis) {
                mi = k;
            }
            k += 1;
        }
        let ghost old_src = src@;
        let ghost old_out = out@;
        let p = src.remove(mi);
        out.push(p);
        proof {
            broadcast use group_to_multiset_ensures;

            assert(src@.to_multiset() =~= old_src.to_multiset().remove(p));
            assert(out@.to_multiset() =~= old_out.to_multiset().insert(p));
            assert(old_src.to_multiset().count(p) > 0);
            assert(out@.to_multiset().add(src@.to_multiset()) =~= v@.to_multiset());
            assert(forall|j: int|
                0 <= j < src@.len() ==> exists|i: int|
                    0 <= i < old_src.len() && old_src[i] == #[trigger] src@[j]);
        }
    }
    out
}

/// Every leaf's box lies inside its tree's box.
pub proof fn lemma_leaves_in_box(n: BvhNode)
    requires
        node_wf(n),
    ensures
        forall|i: int|
            0 <= i < node_prims(n).len() ==> aabb_inside(
                prim_bbox(#[trigger] node_prims(n)[i]),
                node_bbox(n),
            ),
    decreases n,
{
    match n {
        BvhNode::Leaf(p) => {
            assert(node_prims(n) =~= seq![p]);
            assert(aabb_inside(prim_bbox(p), prim_bbox(p)));
        },
        BvhNode::Node { left, right, bbox } => {
            lemma_leaves_in_box(*left);
            lemma_leaves_in_box(*right);
            crate::aabb::lemma_aabb_union_upper(node_bbox(*left), node_bbox(*right));
            let sl = node_prims(*left);
            let sr = node_prims(*right);
            assert(node_prims(n) =~= sl + sr);
            assert forall|i: int| 0 <= i < node_prims(n).len() implies aabb_inside(
                prim_bbox(#[trigger] node_prims(n)[i]),
                node_bbox(n),
            ) by {
                if i < sl.len() {
                    assert(node_prims(n)[i] == sl[i]);
                    crate::aabb::lemma_aabb_inside_trans(prim_bbox(sl[i]), node_bbox(*left), node_bbox(n));
                } else {
                    assert(node_prims(n)[i] == sr[i - sl.len()]);
                    crate::aabb::lemma_aabb_inside_trans(
                        prim_bbox(sr[i - sl.len()]),
                        node_bbox(*right),
                        node_bbox(n),
                    );
                }
            }
        },
    }
}

/// Every leaf primitive of a well-formed tree is well-formed.
pub proof fn lemma_leaves_wf(n: BvhNode)
    requires
        node_wf(n),
    ensures
        forall|i: int| 0 <= i < node_prims(n).len() ==> prim_wf(#[trigger] node_prims(n)[i]),
    decreases n,
{
    match n {
        BvhNode::Leaf(p) => {
            assert(node_prims(n) =~= seq![p]);
        },
        BvhNode::Node { left, right, .. } => {
            lemma_leaves_wf(*left);
            lemma_leaves_wf(*right);
            let sl = node_prims(*left);
            let sr = node_prims(*right);
            assert(node_prims(n) =~= sl + sr);
            assert forall|i: int| 0 <= i < node_prims(n).len() implies prim_wf(
                #[trigger] node_prims(n)[i],
            ) by {
                if i < sl.len() {
                    assert(node_prims(n)[i] == sl[i]);
                } else {
                    assert(node_prims(n)[i] == sr[i - sl.len()]);
                }
            }
        },
    }
}

impl BvhNode {
    /// Builds a tree over a scene list, consuming it.
    pub fn new(list: crate::hittable_list::HittableList, rng: &mut ThreadRng) -> (n: BvhNode)
        requires
            list.objects@.len() >= 1,
            crate::hittable_list::list_wf(list),
        ensures
            node_wf(n),
            node_prims(n).to_multiset() == list.objects@.to_multiset(),
    {
        BvhNode::from_vec(list.objects, rng)
    }

    /// Builds a tree over the given primitives: sort by a uniformly
    /// random axis, split in the middle, recurse; a single primitive
    /// becomes a leaf, a pair two ordered leaves. The leaves are a
    /// permutation of the input.
    pub fn from_vec(list: Vec<Primitive>, rng: &mut ThreadRng) -> (n: BvhNode)
        requires
            list@.len() >= 1,
            forall|i: int| 0 <= i < list@.len() ==> prim_wf(#[trigger] list@[i]),
        ensures
            node_wf(n),
            node_prims(n).to_multiset() == list@.to_multiset(),
        decreases list@.len(),
    {
        let ghost l0 = list@;
        let axis = rng_below(rng, 3) as usize;
        let mut list = list;
        if list.len() == 1 {
            let p = list.remove(0);
            let n = BvhNode::Leaf(p);
            proof {
                assert(node_prims(n) =~= seq![p]);
                assert(l0 =~= seq![p]);
            }
            return n;
        }
        if list.len() == 2 {
            let b = list.remove(1);
            let a = list.remove(0);
            let (first, second) = if axis_min(&a, axis) < axis_min(&b, axis) {
                (a, b)
            } else {
                (b, a)
            };
            let ghost gf = first;
            let ghost gs = second;
            let bbox = AABB::from_aabbs(&first.bounding_box(), &second.bounding_box());
            let n = BvhNode::Node {
                left: Box::new(BvhNode::Leaf(first)),
                right: Box::new(BvhNode::Leaf(second)),
                bbox,
            };
            proof {
                assert(node_wf(BvhNode::Leaf(gf)));
                assert(node_wf(BvhNode::Leaf(gs)));
                assert(node_wf(n));
                assert(node_prims(BvhNode::Leaf(gf)) =~= seq![gf]);
                assert(node_prims(BvhNode::Leaf(gs)) =~= seq![gs]);
                assert(node_prims(n) =~= node_prims(BvhNode::Leaf(gf)) + node_prims(
                    BvhNode::Leaf(gs),
                ));
                vstd::seq_lib::lemma_seq_union_to_multiset_commutative(seq![gf], seq![gs]);
                assert(l0 =~= seq![gf] + seq![gs] || l0 =~= seq![gs] + seq![gf]);
            }
            return n;
        }
        let sorted = sort_by_axis(list, axis);
        let ghost s0 = sorted@;
        let mut left_v = sorted;
        let mid = left_v.len() / 2;
        let right_v = left_v.split_off(mid);
        proof {
            assert(s0 =~= left_v@ + right_v@);
            lemma_multiset_commutative(left_v@, right_v@);
            assert(forall|i: int| 0 <= i < left_v@.len() ==> prim_wf(#[trigger] left_v@[i]));
            assert(forall|i: int| 0 <= i < right_v@.len() ==> prim_wf(#[trigger] right_v@[i]));
        }
        let ghost lv = left_v@;
        let ghost rv = right_v@;
        let left = BvhNode::from_vec(left_v, rng);
        let right = BvhNode::from_vec(right_v, rng);
        let ghost gl = left;
        let ghost gr = right;
        let bbox = AABB::from_aabbs(&left.bounding_box(), &right.bounding_box());
        let n = BvhNode::Node { left: Box::new(left), right: Box::new(right), bbox };
        proof {
            assert(node_prims(n) =~= node_prims(gl) + node_prims(gr));
            lemma_multiset_commutative(node_prims(gl), node_prims(gr));
        }
        n
    }

    /// The node's bounding box.
    pub fn bounding_box(&self) -> (b: AABB)
        requires
            node_wf(*self),
        ensures
            b == node_bbox(*self),
    {
        match self {
            BvhNode::Leaf(p) => p.bounding_box(),
            BvhNode::Node { bbox, .. } => *bbox,
        }
    }

    /// Traverses the tree: the nearest reported hit in the open span,
    /// exactly as `node_hit_t` describes.
    pub fn hit<'a>(&'a self, r: &Ray, ray_t: &RaySpan) -> (res: Option<HitRecord<'a>>)
        requires
            node_wf(*self),
            ray_ok(*r),
            crate::interval::span_ok(*ray_t),
        ensures
            match res {
                None => node_hit_t(*self, *r, ray_t.min@, ray_t.max@) is None,
                Some(h) => {
                    &&& node_hit_t(*self, *r, ray_t.min@, ray_t.max@) == Some(h.t@)
                    &&& frac_ok(h.t)
                    &&& rec_wf(h)
                    &&& rat_in_open(h.t@, ray_t.min@, ray_t.max@)
                    &&& h.p@.x == spec_at_axis(r.orig.x as int, r.dir.x as int, h.t@)
                    &&& h.p@.y == spec_at_axis(r.orig.y as int, r.dir.y as int, h.t@)
                    &&& h.p@.z == spec_at_axis(r.orig.z as int, r.dir.z as int, h.t@)
                    &&& match h.material {
                        Some(m) => mat_wf(*m) && node_has_mat(*self, *m),
                        None => false,
                    }
                },
            },
        decreases *self,
    {
        let bbox = self.bounding_box();
        proof {
            lemma_node_bbox_in_box(*self);
        }
        if !r.intersects(&bbox, ray_t) {
            return None;
        }
        match self {
            BvhNode::Leaf(l) => l.hit(r, ray_t),
            BvhNode::Node { left, right, .. } => {
                let hit_left = left.hit(r, ray_t);
                let new_max = match &hit_left {
                    Some(hl) => hl.t,
                    None => ray_t.max,
                };
                let clipped = RaySpan { min: ray_t.min, max: new_max };
                let hit_right = right.hit(r, &clipped);
                match hit_right {
                    Some(h) => {
                        proof {
                            if hit_left is Some {
                                lemma_rat_lt_trans(
                                    h.t@,
                                    hit_left.unwrap().t@,
                                    ray_t.max@,
                                );
                            }
                        }
                        Some(h)
                    },
                    None => hit_left,
                }
            },
        }
    }
}

} // verus!
