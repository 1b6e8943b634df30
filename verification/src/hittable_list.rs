//! The flat scene container: a list of primitives and their union box.
//!
//! Its `hit` is the brute-force linear scan: try every primitive in
//! order, narrowing the upper parameter bound to the closest hit so
//! far. `seq_hit_t` states the scan exactly; the `laws` module proves
//! it returns the minimum reported parameter, and that a tree built
//! over any permutation of the list agrees with it.

use vstd::prelude::*;
use crate::frac::{Rat, frac_ok, rat_in_open, lemma_rat_lt_trans};
use crate::interval::RaySpan;
use crate::aabb::{AABB, spec_aabb_union};
use crate::ray::{Ray, ray_ok, spec_at_axis};
use crate::hittable::{Primitive, prim_hit_t, prim_wf, prim_bbox, HitRecord, rec_wf};
use crate::material::mat_wf;

verus! {

/// What the linear scan reports: the first primitive's hit clips the
/// span for the rest, and a later (strictly closer) hit takes
/// precedence.
pub open spec fn seq_hit_t(s: Seq<Primitive>, r: Ray, lo: Rat, hi: Rat) -> Option<Rat>
    decreases s.len(),
{
    if s.len() == 0 {
        None
    } else {
        let first = prim_hit_t(s[0], r, lo, hi);
        let clipped = match first {
            Some(t) => t,
            None => hi,
        };
        match seq_hit_t(s.drop_first(), r, lo, clipped) {
            Some(t) => Some(t),
            None => first,
        }
    }
}

/// A flat list of primitives under one bounding box.
pub struct HittableList {
    pub objects: Vec<Primitive>,
    pub bbox: AABB,
}

/// Well-formedness of a list: every primitive is well-formed.
pub open spec fn list_wf(l: HittableList) -> bool {
    forall|i: int| 0 <= i < l.objects@.len() ==> prim_wf(#[trigger] l.objects@[i])
}

impl HittableList {
    /// An empty scene; the empty box is the identity of union.
    pub fn new() -> (l: HittableList)
        ensures
            list_wf(l),
            l.objects@.len() == 0,
    {
        HittableList { objects: Vec::new(), bbox: AABB::default() }
    }

    /// Appends a primitive and grows the union box.
    pub fn add(&mut self, item: Primitive)
        requires
            list_wf(*old(self)),
            prim_wf(item),
        ensures
            list_wf(*final(self)),
            final(self).objects@ == old(self).objects@.push(item),
            final(self).bbox == spec_aabb_union(old(self).bbox, prim_bbox(item)),
    {
        self.bbox = AABB::from_aabbs(&self.bbox, &item.bounding_box());
        self.objects.push(item);
    }

    /// The union box of everything added so far.
    pub fn bounding_box(&self) -> (b: AABB)
        ensures
            b == self.bbox,
    {
        self.bbox
    }

    /// The brute-force scan: every primitive in order, keeping the
    /// closest hit; `seq_hit_t` gives the returned parameter.
    pub fn hit<'a>(&'a self, r: &Ray, ray_t: &RaySpan) -> (res: Option<HitRecord<'a>>)
        requires
            list_wf(*self),
            ray_ok(*r),
            crate::interval::span_ok(*ray_t),
        ensures
            match res {
                None => seq_hit_t(self.objects@, *r, ray_t.min@, ray_t.max@) is None,
                Some(h) => {
                    &&& seq_hit_t(self.objects@, *r, ray_t.min@, ray_t.max@) == Some(h.t@)
                    &&& frac_ok(h.t)
                    &&& rec_wf(h)
                    &&& rat_in_open(h.t@, ray_t.min@, ray_t.max@)
                    &&& h.p@.x == spec_at_axis(r.orig.x as int, r.dir.x as int, h.t@)
                    &&& h.p@.y == spec_at_axis(r.orig.y as int, r.dir.y as int, h.t@)
                    &&& h.p@.z == spec_at_axis(r.orig.z as int, r.dir.z as int, h.t@)
                    &&& match h.material {
                        Some(m) => mat_wf(*m) && exists|k: int|
                            0 <= k < self.objects@.len() && crate::hittable::prim_mat_src(
                                #[trigger] self.objects@[k],
                                *m,
                            ),
                        None => false,
                    }
                },
            },
    {
        let ghost s = self.objects@;
        let ghost lo = ray_t.min@;
        let ghost hi0 = ray_t.max@;
        let mut closest = ray_t.max;
        let mut result: Option<HitRecord<'a>> = None;
        let mut i: usize = 0;
        proof {
            assert(s.skip(0) =~= s);
        }
        while i < self.objects.len()
            invariant
                list_wf(*self),
                ray_ok(*r),
                crate::interval::span_ok(*ray_t),
                s == self.objects@,
                lo == ray_t.min@,
                hi0 == ray_t.max@,
                i <= s.len(),
                frac_ok(closest),
                match result {
                    None => {
                        &&& closest == ray_t.max
                        &&& seq_hit_t(s, *r, lo, hi0) == seq_hit_t(s.skip(i as int), *r, lo, hi0)
                    },
                    Some(h) => {
                        &&& closest == h.t
                        &&& frac_ok(h.t)
                        &&& rec_wf(h)
                        &&& rat_in_open(h.t@, lo, hi0)
                        &&& h.p@.x == spec_at_axis(r.orig.x as int, r.dir.x as int, h.t@)
                        &&& h.p@.y == spec_at_axis(r.orig.y as int, r.dir.y as int, h.t@)
                        &&& h.p@.z == spec_at_axis(r.orig.z as int, r.dir.z as int, h.t@)
                        &&& match h.material {
                            Some(m) => mat_wf(*m) && exists|k: int|
                                0 <= k < self.objects@.len() && crate::hittable::prim_mat_src(
                                    #[trigger] self.objects@[k],
                                    *m,
                                ),
                            None => false,
                        }
                        &&& seq_hit_t(s, *r, lo, hi0) == match seq_hit_t(
                            s.skip(i as int),
                            *r,
                            lo,
                            h.t@,
                        ) {
                            Some(t) => Some(t),
                            None => Some(h.t@),
                        }
                    },
                },
            decreases s.len() - i,
        {
            let span = RaySpan { min: ray_t.min, max: closest };
            let hit = self.objects[i].hit(r, &span);
            proof {
                assert(s.skip(i as int)[0] == s[i as int]);
                assert(s.skip(i as int).drop_first() =~= s.skip(i as int + 1));
            }
            match hit {
                Some(h) => {
                    proof {
                        if result is Some {
                            lemma_rat_lt_trans(h.t@, result.unwrap().t@, hi0);
                        }
                    }
                    closest = h.t;
                    result = Some(h);
                },
                None => {},
            }
            i += 1;
        }
        proof {
            assert(s.skip(s.len() as int) =~= Seq::<Primitive>::empty());
        }
        result
    }
}

} // verus!
