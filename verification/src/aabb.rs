//! Axis-aligned bounding boxes.
//!
//! A box is a triple of closed intervals. Union of boxes is exact
//! componentwise min/max; it is commutative and associative, so folding
//! boxes in any order gives the same result (proved below).

use vstd::prelude::*;
use crate::interval::{Interval, interval_in, spec_interval_union};
use crate::vec3::Vec3;

verus! {

/// An axis-aligned box: one closed interval per axis.
#[derive(Clone, Copy, Debug, PartialEq, Eq, Structural)]
pub struct AABB {
    pub x: Interval,
    pub y: Interval,
    pub z: Interval,
}

/// All six bounds of `b` are within `bound` in magnitude.
pub open spec fn aabb_in(b: AABB, bound: int) -> bool {
    interval_in(b.x, bound) && interval_in(b.y, bound) && interval_in(b.z, bound)
}

/// The union of two boxes: componentwise union of their intervals.
pub open spec fn spec_aabb_union(a: AABB, b: AABB) -> AABB {
    AABB {
        x: spec_interval_union(a.x, b.x),
        y: spec_interval_union(a.y, b.y),
        z: spec_interval_union(a.z, b.z),
    }
}

/// `inner` lies inside `outer`: every point of `inner` is in `outer`.
/// Stated boundwise; an empty `inner` need not satisfy it.
pub open spec fn aabb_inside(inner: AABB, outer: AABB) -> bool {
    &&& outer.x.min <= inner.x.min && inner.x.max <= outer.x.max
    &&& outer.y.min <= inner.y.min && inner.y.max <= outer.y.max
    &&& outer.z.min <= inner.z.min && inner.z.max <= outer.z.max
}

impl AABB {
    /// Builds a box from its three axis intervals.
    pub fn new(x: Interval, y: Interval, z: Interval) -> (r: AABB)
        ensures
            r == (AABB { x, y, z }),
    {
        AABB { x, y, z }
    }

    /// The union of two boxes.
    pub fn from_aabbs(box0: &AABB, box1: &AABB) -> (r: AABB)
        ensures
            r == spec_aabb_union(*box0, *box1),
    {
        AABB {
            x: Interval::from_intervals(&box0.x, &box1.x),
            y: Interval::from_intervals(&box0.y, &box1.y),
            z: Interval::from_intervals(&box0.z, &box1.z),
        }
    }

    /// The tightest box containing the two points.
    pub fn from_points(a: Vec3, b: Vec3) -> (r: AABB)
        ensures
            r.x.min == if a.x <= b.x { a.x } else { b.x },
            r.x.max == if a.x >= b.x { a.x } else { b.x },
            r.y.min == if a.y <= b.y { a.y } else { b.y },
            r.y.max == if a.y >= b.y { a.y } else { b.y },
            r.z.min == if a.z <= b.z { a.z } else { b.z },
            r.z.max == if a.z >= b.z { a.z } else { b.z },
    {
        let x = Interval::new(if a.x <= b.x { a.x } else { b.x }, if a.x >= b.x { a.x } else { b.x });
        let y = Interval::new(if a.y <= b.y { a.y } else { b.y }, if a.y >= b.y { a.y } else { b.y });
        let z = Interval::new(if a.z <= b.z { a.z } else { b.z }, if a.z >= b.z { a.z } else { b.z });
        AABB { x, y, z }
    }

    /// The tightest box containing the three points.
    pub fn from_3_points(a: Vec3, b: Vec3, c: Vec3) -> (r: AABB)
        ensures
            r == spec_aabb_union(AABB::spec_from_points(a, b), AABB::spec_from_points(c, c)),
    {
        let ab = AABB::from_points(a, b);
        let cc = AABB::from_points(c, c);
        AABB::from_aabbs(&ab, &cc)
    }

    /// The tightest box containing two points, as a spec value.
    pub open spec fn spec_from_points(a: Vec3, b: Vec3) -> AABB {
        AABB {
            x: Interval {
                min: if a.x <= b.x {
                    a.x
                } else {
                    b.x
                },
                max: if a.x >= b.x {
                    a.x
                } else {
                    b.x
                },
            },
            y: Interval {
                min: if a.y <= b.y {
                    a.y
                } else {
                    b.y
                },
                max: if a.y >= b.y {
                    a.y
                } else {
                    b.y
                },
            },
            z: Interval {
                min: if a.z <= b.z {
                    a.z
                } else {
                    b.z
                },
                max: if a.z >= b.z {
                    a.z
                } else {
                    b.z
                },
            },
        }
    }

    /// The axis interval by index: 1 is y, 2 is z, anything else x.
    pub fn axis(&self, n: usize) -> (r: Interval)
        ensures
            r == self.spec_axis(n as int),
    {
        match n {
            1 => self.y,
            2 => self.z,
            _ => self.x,
        }
    }

    /// See [`AABB::axis`].
    pub open spec fn spec_axis(&self, n: int) -> Interval {
        if n == 1 {
            self.y
        } else if n == 2 {
            self.z
        } else {
            self.x
        }
    }

    /// Widens every axis narrower than two units by one unit on each
    /// side, so that degenerate planar boxes stay hittable by the slab
    /// test.
    pub fn pad(self) -> (r: AABB)
        requires
            aabb_in(self, 0x1000_0000_0000_0000),
        ensures
            r.x == if self.x.max as int - self.x.min as int >= 2 { self.x } else { Interval { min: (self.x.min - 1) as i64, max: (self.x.max + 1) as i64 } },
            r.y == if self.y.max as int - self.y.min as int >= 2 { self.y } else { Interval { min: (self.y.min - 1) as i64, max: (self.y.max + 1) as i64 } },
            r.z == if self.z.max as int - self.z.min as int >= 2 { self.z } else { Interval { min: (self.z.min - 1) as i64, max: (self.z.max + 1) as i64 } },
    {
        let delta: i64 = 2;
        let new_x = if self.x.size() >= 2 {
            self.x
        } else {
            self.x.expand(delta)
        };
        let new_y = if self.y.size() >= 2 {
            self.y
        } else {
            self.y.expand(delta)
        };
        let new_z = if self.z.size() >= 2 {
            self.z
        } else {
            self.z.expand(delta)
        };
        AABB::new(new_x, new_y, new_z)
    }
}

impl Default for AABB {
    /// The empty box: the identity of box union.
    fn default() -> (r: AABB)
        ensures
            r.x.min == i64::MAX && r.x.max == i64::MIN,
            r.y.min == i64::MAX && r.y.max == i64::MIN,
            r.z.min == i64::MAX && r.z.max == i64::MIN,
    {
        AABB { x: Interval::default(), y: Interval::default(), z: Interval::default() }
    }
}

/// The box with every axis narrower than two units widened by one unit
/// on each side (the spec twin of `AABB::pad`).
pub open spec fn pad_box(b: AABB) -> AABB {
    AABB {
        x: if b.x.max as int - b.x.min as int >= 2 {
            b.x
        } else {
            Interval { min: (b.x.min - 1) as i64, max: (b.x.max + 1) as i64 }
        },
        y: if b.y.max as int - b.y.min as int >= 2 {
            b.y
        } else {
            Interval { min: (b.y.min - 1) as i64, max: (b.y.max + 1) as i64 }
        },
        z: if b.z.max as int - b.z.min as int >= 2 {
            b.z
        } else {
            Interval { min: (b.z.min - 1) as i64, max: (b.z.max + 1) as i64 }
        },
    }
}

/// Union of boxes is commutative.
pub proof fn lemma_aabb_union_comm(a: AABB, b: AABB)
    ensures
        spec_aabb_union(a, b) == spec_aabb_union(b, a),
{
}

/// Union of boxes is associative.
pub proof fn lemma_aabb_union_assoc(a: AABB, b: AABB, c: AABB)
    ensures
        spec_aabb_union(a, spec_aabb_union(b, c)) == spec_aabb_union(spec_aabb_union(a, b), c),
{
}

/// Both operands lie inside their union.
pub proof fn lemma_aabb_union_upper(a: AABB, b: AABB)
    ensures
        aabb_inside(a, spec_aabb_union(a, b)),
        aabb_inside(b, spec_aabb_union(a, b)),
{
}

/// The canonical empty box: the identity of union.
pub open spec fn empty_aabb() -> AABB {
    AABB {
        x: Interval { min: i64::MAX, max: i64::MIN },
        y: Interval { min: i64::MAX, max: i64::MIN },
        z: Interval { min: i64::MAX, max: i64::MIN },
    }
}

/// The union of a sequence of boxes, folded left to right from the
/// empty box.
pub open spec fn fold_union(s: Seq<AABB>) -> AABB
    decreases s.len(),
{
    if s.len() == 0 {
        empty_aabb()
    } else {
        spec_aabb_union(fold_union(s.drop_last()), s.last())
    }
}

/// Pulling any element out of the fold and uniting it last gives the
/// same box.
proof fn lemma_fold_union_pull(s: Seq<AABB>, i: int)
    requires
        0 <= i < s.len(),
    ensures
        fold_union(s) == spec_aabb_union(fold_union(s.remove(i)), s[i]),
    decreases s.len(),
{
    if i == s.len() - 1 {
        assert(s.remove(i) =~= s.drop_last());
    } else {
        let sdl = s.drop_last();
        let last = s.last();
        lemma_fold_union_pull(sdl, i);
        let f = fold_union(sdl.remove(i));
        assert(s.remove(i).drop_last() =~= sdl.remove(i));
        assert(s.remove(i).last() == last);
        lemma_aabb_union_assoc(f, s[i], last);
        lemma_aabb_union_comm(s[i], last);
        lemma_aabb_union_assoc(f, last, s[i]);
    }
}

/// Folding box unions over any permutation yields the same box: union
/// is commutative and associative, so only which boxes appear matters.
pub proof fn lemma_fold_union_permutation(s1: Seq<AABB>, s2: Seq<AABB>)
    requires
        s1.to_multiset() == s2.to_multiset(),
    ensures
        fold_union(s1) == fold_union(s2),
    decreases s2.len(),
{
    broadcast use vstd::seq_lib::group_to_multiset_ensures;

    if s2.len() == 0 {
        assert(s1.len() == s1.to_multiset().len());
        assert(s2.len() == s2.to_multiset().len());
    } else {
        let x = s2.last();
        assert(s2.to_multiset().count(x) > 0) by {
            assert(s2[s2.len() - 1] == x);
            assert(s2.contains(x));
        }
        assert(s1.contains(x));
        let i = choose|i: int| 0 <= i < s1.len() && s1[i] == x;
        lemma_fold_union_pull(s1, i);
        assert(s2.drop_last() =~= s2.remove(s2.len() - 1));
        assert(s1.remove(i).to_multiset() =~= s2.drop_last().to_multiset()) by {
            assert(s1.remove(i).to_multiset() =~= s1.to_multiset().remove(x));
            assert(s2.remove(s2.len() - 1).to_multiset() =~= s2.to_multiset().remove(x));
        }
        lemma_fold_union_permutation(s1.remove(i), s2.drop_last());
    }
}

/// `aabb_inside` is transitive.
pub proof fn lemma_aabb_inside_trans(a: AABB, b: AABB, c: AABB)
    requires
        aabb_inside(a, b),
        aabb_inside(b, c),
    ensures
        aabb_inside(a, c),
{
}

} // verus!
