//! Rays and the exact slab test against axis-aligned boxes.
//!
//! A ray is an integer origin and direction; it is evaluated at exact
//! rational parameters, so `at(t)` is a rational point with no rounding.
//! The slab test intersects, per axis, the exact rational parameter
//! range in which the ray is between the two slab planes; membership of
//! `at(t)` in a box is therefore decidable exactly, and the test is
//! proved sound and complete against it (see the lemmas at the end).

use vstd::prelude::*;
use crate::frac::{Rat, Frac, frac_ok, rat_le, rat_lt, rat_int, lemma_mul_bound, FRAC_MAX,
    lemma_rat_le_trans, lemma_rat_le_lt_trans, lemma_rat_lt_le_trans, lemma_rat_order_total};
use crate::vec3::{Vec3, vec_in, RatVec3, rv_ok};
use crate::interval::{Interval, interval_in, RaySpan, span_ok};
use crate::aabb::{AABB, aabb_in};
use crate::{COORD_MAX, ORIGIN_MAX};

verus! {

/// Largest magnitude allowed for a bounding-box coordinate.
pub const BOX_MAX: i64 = 1048576;

/// A ray: integer origin and (unnormalized) integer direction.
#[derive(Clone, Copy, Debug)]
pub struct Ray {
    pub orig: Vec3,
    pub dir: Vec3,
}

/// Well-formedness of a ray: origin and direction within their budgets.
pub open spec fn ray_ok(r: Ray) -> bool {
    vec_in(r.orig, ORIGIN_MAX as int) && vec_in(r.dir, COORD_MAX as int)
}

/// Axis selector on vectors: 1 is y, 2 is z, anything else x.
pub open spec fn vec_axis(v: Vec3, n: int) -> int {
    if n == 1 {
        v.y as int
    } else if n == 2 {
        v.z as int
    } else {
        v.x as int
    }
}

impl Ray {
    /// Builds a ray from origin and direction.
    pub fn new(orig: Vec3, dir: Vec3) -> (r: Ray)
        ensures
            r == (Ray { orig, dir }),
    {
        Ray { orig, dir }
    }

    /// The ray origin.
    pub fn origin(&self) -> (r: Vec3)
        ensures
            r == self.orig,
    {
        self.orig
    }

    /// The ray direction.
    pub fn direction(&self) -> (r: Vec3)
        ensures
            r == self.dir,
    {
        self.dir
    }

    /// The exact rational point `origin + t * dir`.
    pub fn at(&self, t: &Frac) -> (r: RatVec3)
        requires
            ray_ok(*self),
            frac_ok(*t),
        ensures
            rv_ok(r),
            -0x10_0000_0000_0000_0000_0000 <= r.nx <= 0x10_0000_0000_0000_0000_0000,
            -0x10_0000_0000_0000_0000_0000 <= r.ny <= 0x10_0000_0000_0000_0000_0000,
            -0x10_0000_0000_0000_0000_0000 <= r.nz <= 0x10_0000_0000_0000_0000_0000,
            r@.x == spec_at_axis(self.orig.x as int, self.dir.x as int, t@),
            r@.y == spec_at_axis(self.orig.y as int, self.dir.y as int, t@),
            r@.z == spec_at_axis(self.orig.z as int, self.dir.z as int, t@),
            r.d == t.d,
    {
        proof {
            lemma_mul_bound(self.orig.x as int, t.d as int, ORIGIN_MAX as int, FRAC_MAX as int);
            lemma_mul_bound(self.orig.y as int, t.d as int, ORIGIN_MAX as int, FRAC_MAX as int);
            lemma_mul_bound(self.orig.z as int, t.d as int, ORIGIN_MAX as int, FRAC_MAX as int);
            lemma_mul_bound(t.n as int, self.dir.x as int, FRAC_MAX as int, COORD_MAX as int);
            lemma_mul_bound(t.n as int, self.dir.y as int, FRAC_MAX as int, COORD_MAX as int);
            lemma_mul_bound(t.n as int, self.dir.z as int, FRAC_MAX as int, COORD_MAX as int);
        }
        RatVec3 {
            nx: (self.orig.x as i128) * t.d + t.n * (self.dir.x as i128),
            ny: (self.orig.y as i128) * t.d + t.n * (self.dir.y as i128),
            nz: (self.orig.z as i128) * t.d + t.n * (self.dir.z as i128),
            d: t.d,
        }
    }

    /// The branchless slab test: true iff the exact per-axis parameter
    /// ranges in which the ray is inside the box, intersected with the
    /// open span, have a nonempty interior.
    pub fn intersects(&self, other: &AABB, range: &RaySpan) -> (r: bool)
        requires
            ray_ok(*self),
            aabb_in(*other, BOX_MAX as int),
            span_ok(*range),
        ensures
            r == spec_slab(*self, *other, range.min@, range.max@),
    {
        let mut lo = range.min;
        let mut hi = range.max;
        let miss_x = tighten_axis(&mut lo, &mut hi, self.orig.x, self.dir.x, &other.x);
        let miss_y = tighten_axis(&mut lo, &mut hi, self.orig.y, self.dir.y, &other.y);
        let miss_z = tighten_axis(&mut lo, &mut hi, self.orig.z, self.dir.z, &other.z);
        if miss_x || miss_y || miss_z {
            return false;
        }
        lo.lt(&hi)
    }
}

/// Tightens the running parameter range by one axis slab; returns true
/// iff the ray is parallel to the slab and outside it.
fn tighten_axis(lo: &mut Frac, hi: &mut Frac, o: i64, d: i64, iv: &Interval) -> (miss: bool)
    requires
        frac_ok(*old(lo)),
        frac_ok(*old(hi)),
        -ORIGIN_MAX <= o <= ORIGIN_MAX,
        -COORD_MAX <= d <= COORD_MAX,
        interval_in(*iv, BOX_MAX as int),
    ensures
        frac_ok(*final(lo)),
        frac_ok(*final(hi)),
        final(lo)@ == tighten_lo(old(lo)@, o as int, d as int, *iv),
        final(hi)@ == tighten_hi(old(hi)@, o as int, d as int, *iv),
        miss == axis_miss(o as int, d as int, *iv),
{
    if d == 0 {
        return o < iv.min || o > iv.max;
    }
    let (t0, t1) = if d > 0 {
        (
            Frac::new((iv.min as i128) - (o as i128), d as i128),
            Frac::new((iv.max as i128) - (o as i128), d as i128),
        )
    } else {
        (
            Frac::new((o as i128) - (iv.max as i128), -(d as i128)),
            Frac::new((o as i128) - (iv.min as i128), -(d as i128)),
        )
    };
    if lo.lt(&t0) {
        *lo = t0;
    }
    if t1.lt(&hi) {
        *hi = t1;
    }
    false
}

/// The larger of two rationals (first on ties).
pub open spec fn rat_max(a: Rat, b: Rat) -> Rat {
    if rat_lt(a, b) {
        b
    } else {
        a
    }
}

/// The smaller of two rationals (first on ties).
pub open spec fn rat_min(a: Rat, b: Rat) -> Rat {
    if rat_lt(b, a) {
        b
    } else {
        a
    }
}

/// The exact parameter at which the ray enters the axis slab
/// (for `d != 0`), with a positive denominator.
pub open spec fn axis_t_lo(o: int, d: int, iv: Interval) -> Rat {
    if d > 0 {
        Rat { n: iv.min as int - o, d: d }
    } else {
        Rat { n: o - iv.max as int, d: -d }
    }
}

/// The exact parameter at which the ray leaves the axis slab
/// (for `d != 0`), with a positive denominator.
pub open spec fn axis_t_hi(o: int, d: int, iv: Interval) -> Rat {
    if d > 0 {
        Rat { n: iv.max as int - o, d: d }
    } else {
        Rat { n: o - iv.min as int, d: -d }
    }
}

/// A parallel ray lies outside the axis slab for every parameter.
pub open spec fn axis_miss(o: int, d: int, iv: Interval) -> bool {
    d == 0 && (o < iv.min as int || o > iv.max as int)
}

/// One slab-test step on the running lower bound.
pub open spec fn tighten_lo(l: Rat, o: int, d: int, iv: Interval) -> Rat {
    if d == 0 {
        l
    } else {
        rat_max(l, axis_t_lo(o, d, iv))
    }
}

/// One slab-test step on the running upper bound.
pub open spec fn tighten_hi(h: Rat, o: int, d: int, iv: Interval) -> Rat {
    if d == 0 {
        h
    } else {
        rat_min(h, axis_t_hi(o, d, iv))
    }
}

/// The lower bound after all three axes.
pub open spec fn slab_lo(r: Ray, b: AABB, lo: Rat) -> Rat {
    tighten_lo(
        tighten_lo(
            tighten_lo(lo, r.orig.x as int, r.dir.x as int, b.x),
            r.orig.y as int,
            r.dir.y as int,
            b.y,
        ),
        r.orig.z as int,
        r.dir.z as int,
        b.z,
    )
}

/// The upper bound after all three axes.
pub open spec fn slab_hi(r: Ray, b: AABB, hi: Rat) -> Rat {
    tighten_hi(
        tighten_hi(
            tighten_hi(hi, r.orig.x as int, r.dir.x as int, b.x),
            r.orig.y as int,
            r.dir.y as int,
            b.y,
        ),
        r.orig.z as int,
        r.dir.z as int,
        b.z,
    )
}

/// What the slab test decides: no parallel miss on any axis, and the
/// tightened parameter range has a nonempty interior.
pub open spec fn spec_slab(r: Ray, b: AABB, lo: Rat, hi: Rat) -> bool {
    &&& !axis_miss(r.orig.x as int, r.dir.x as int, b.x)
    &&& !axis_miss(r.orig.y as int, r.dir.y as int, b.y)
    &&& !axis_miss(r.orig.z as int, r.dir.z as int, b.z)
    &&& rat_lt(slab_lo(r, b, lo), slab_hi(r, b, hi))
}

/// One coordinate of the ray at parameter `t`, as an exact rational.
pub open spec fn spec_at_axis(o: int, d: int, t: Rat) -> Rat {
    Rat { n: o * t.d + t.n * d, d: t.d }
}

/// Inclusive membership of a rational in a closed integer interval.
pub open spec fn rat_in_closed(x: Rat, iv: Interval) -> bool {
    rat_le(rat_int(iv.min as int), x) && rat_le(x, rat_int(iv.max as int))
}

/// The ray's point at parameter `t` lies in the closed box.
pub open spec fn ray_in_box_at(r: Ray, b: AABB, t: Rat) -> bool {
    &&& rat_in_closed(spec_at_axis(r.orig.x as int, r.dir.x as int, t), b.x)
    &&& rat_in_closed(spec_at_axis(r.orig.y as int, r.dir.y as int, t), b.y)
    &&& rat_in_closed(spec_at_axis(r.orig.z as int, r.dir.z as int, t), b.z)
}

/// For a non-parallel axis, the ray coordinate is inside the slab at
/// `t` exactly when `t` lies between the entry and exit parameters.
proof fn lemma_axis_member_iff_bounds(o: int, d: int, iv: Interval, t: Rat)
    requires
        t.d > 0,
        d != 0,
    ensures
        rat_in_closed(spec_at_axis(o, d, t), iv) <==> (rat_le(axis_t_lo(o, d, iv), t) && rat_le(
            t,
            axis_t_hi(o, d, iv),
        )),
{
    assert(rat_in_closed(spec_at_axis(o, d, t), iv) <==> (rat_le(axis_t_lo(o, d, iv), t)
        && rat_le(t, axis_t_hi(o, d, iv)))) by (nonlinear_arith)
        requires
            t.d > 0,
            d != 0,
    ;
}

/// For a parallel axis, membership at any `t` is the non-miss condition.
proof fn lemma_axis_member_parallel(o: int, d: int, iv: Interval, t: Rat)
    requires
        t.d > 0,
        d == 0,
    ensures
        rat_in_closed(spec_at_axis(o, d, t), iv) <==> !axis_miss(o, d, iv),
{
    assert(rat_in_closed(spec_at_axis(o, d, t), iv) <==> !axis_miss(o, d, iv))
        by (nonlinear_arith)
        requires
            t.d > 0,
            d == 0,
    ;
}

/// One tightening step only raises the lower bound, keeps its
/// denominator positive, and dominates the axis entry parameter.
proof fn lemma_tighten_lo_props(l: Rat, o: int, d: int, iv: Interval)
    requires
        l.d > 0,
    ensures
        tighten_lo(l, o, d, iv).d > 0,
        rat_le(l, tighten_lo(l, o, d, iv)),
        d != 0 ==> rat_le(axis_t_lo(o, d, iv), tighten_lo(l, o, d, iv)),
{
}

/// One tightening step only lowers the upper bound, keeps its
/// denominator positive, and is dominated by the axis exit parameter.
proof fn lemma_tighten_hi_props(h: Rat, o: int, d: int, iv: Interval)
    requires
        h.d > 0,
    ensures
        tighten_hi(h, o, d, iv).d > 0,
        rat_le(tighten_hi(h, o, d, iv), h),
        d != 0 ==> rat_le(tighten_hi(h, o, d, iv), axis_t_hi(o, d, iv)),
{
}

/// Any `t` above the incoming bound and the axis entry parameter is
/// above the tightened bound.
proof fn lemma_tighten_lo_ub(l: Rat, o: int, d: int, iv: Interval, t: Rat)
    requires
        rat_le(l, t),
        d != 0 ==> rat_le(axis_t_lo(o, d, iv), t),
    ensures
        rat_le(tighten_lo(l, o, d, iv), t),
{
}

/// Any `t` below the incoming bound and the axis exit parameter is
/// below the tightened bound.
proof fn lemma_tighten_hi_lb(h: Rat, o: int, d: int, iv: Interval, t: Rat)
    requires
        rat_le(t, h),
        d != 0 ==> rat_le(t, axis_t_hi(o, d, iv)),
    ensures
        rat_le(t, tighten_hi(h, o, d, iv)),
{
}

/// Completeness of the slab test: if the ray is inside the closed box
/// at two distinct parameters of the open span, the test succeeds.
/// (At a single grazing parameter the tightened range has an empty
/// interior and the test may still miss; such inputs are excluded.)
pub proof fn lemma_slab_complete(r: Ray, b: AABB, lo: Rat, hi: Rat, t1: Rat, t2: Rat)
    requires
        lo.d > 0,
        hi.d > 0,
        t1.d > 0,
        t2.d > 0,
        rat_lt(lo, t1),
        rat_lt(t1, t2),
        rat_lt(t2, hi),
        ray_in_box_at(r, b, t1),
        ray_in_box_at(r, b, t2),
    ensures
        spec_slab(r, b, lo, hi),
{
    let ox = r.orig.x as int;
    let oy = r.orig.y as int;
    let oz = r.orig.z as int;
    let dx = r.dir.x as int;
    let dy = r.dir.y as int;
    let dz = r.dir.z as int;
    // no parallel miss on any axis
    if dx == 0 {
        lemma_axis_member_parallel(ox, dx, b.x, t1);
    } else {
        lemma_axis_member_iff_bounds(ox, dx, b.x, t1);
        lemma_axis_member_iff_bounds(ox, dx, b.x, t2);
    }
    if dy == 0 {
        lemma_axis_member_parallel(oy, dy, b.y, t1);
    } else {
        lemma_axis_member_iff_bounds(oy, dy, b.y, t1);
        lemma_axis_member_iff_bounds(oy, dy, b.y, t2);
    }
    if dz == 0 {
        lemma_axis_member_parallel(oz, dz, b.z, t1);
    } else {
        lemma_axis_member_iff_bounds(oz, dz, b.z, t1);
        lemma_axis_member_iff_bounds(oz, dz, b.z, t2);
    }
    // the tightened lower bound stays at or below t1
    let l1 = tighten_lo(lo, ox, dx, b.x);
    let l2 = tighten_lo(l1, oy, dy, b.y);
    lemma_tighten_lo_ub(lo, ox, dx, b.x, t1);
    lemma_tighten_lo_ub(l1, oy, dy, b.y, t1);
    lemma_tighten_lo_ub(l2, oz, dz, b.z, t1);
    // the tightened upper bound stays at or above t2
    let h1 = tighten_hi(hi, ox, dx, b.x);
    let h2 = tighten_hi(h1, oy, dy, b.y);
    lemma_tighten_hi_lb(hi, ox, dx, b.x, t2);
    lemma_tighten_hi_lb(h1, oy, dy, b.y, t2);
    lemma_tighten_hi_lb(h2, oz, dz, b.z, t2);
    // positive denominators of the folded bounds
    lemma_tighten_lo_props(lo, ox, dx, b.x);
    lemma_tighten_lo_props(l1, oy, dy, b.y);
    lemma_tighten_lo_props(l2, oz, dz, b.z);
    lemma_tighten_hi_props(hi, ox, dx, b.x);
    lemma_tighten_hi_props(h1, oy, dy, b.y);
    lemma_tighten_hi_props(h2, oz, dz, b.z);
    // LO <= t1 < t2 <= HI
    lemma_rat_le_lt_trans(slab_lo(r, b, lo), t1, t2);
    lemma_rat_lt_le_trans(slab_lo(r, b, lo), t2, slab_hi(r, b, hi));
}

/// Soundness of the slab test: if it succeeds there is a parameter,
/// strictly inside the span, at which the ray is inside the closed box.
/// The returned witness is the midpoint of the tightened range.
pub proof fn lemma_slab_sound(r: Ray, b: AABB, lo: Rat, hi: Rat) -> (t: Rat)
    requires
        lo.d > 0,
        hi.d > 0,
        spec_slab(r, b, lo, hi),
    ensures
        t.d > 0,
        rat_lt(lo, t),
        rat_lt(t, hi),
        ray_in_box_at(r, b, t),
{
    let ox = r.orig.x as int;
    let oy = r.orig.y as int;
    let oz = r.orig.z as int;
    let dx = r.dir.x as int;
    let dy = r.dir.y as int;
    let dz = r.dir.z as int;
    let l1 = tighten_lo(lo, ox, dx, b.x);
    let l2 = tighten_lo(l1, oy, dy, b.y);
    let h1 = tighten_hi(hi, ox, dx, b.x);
    let h2 = tighten_hi(h1, oy, dy, b.y);
    let lo3 = slab_lo(r, b, lo);
    let hi3 = slab_hi(r, b, hi);
    lemma_tighten_lo_props(lo, ox, dx, b.x);
    lemma_tighten_lo_props(l1, oy, dy, b.y);
    lemma_tighten_lo_props(l2, oz, dz, b.z);
    lemma_tighten_hi_props(hi, ox, dx, b.x);
    lemma_tighten_hi_props(h1, oy, dy, b.y);
    lemma_tighten_hi_props(h2, oz, dz, b.z);
    let t = Rat { n: lo3.n * hi3.d + hi3.n * lo3.d, d: 2 * lo3.d * hi3.d };
    assert(t.d > 0 && rat_lt(lo3, t) && rat_lt(t, hi3)) by (nonlinear_arith)
        requires
            lo3.d > 0,
            hi3.d > 0,
            rat_lt(lo3, hi3),
            t == (Rat { n: lo3.n * hi3.d + hi3.n * lo3.d, d: 2 * lo3.d * hi3.d }),
    ;
    // strictly inside the span
    lemma_rat_le_trans(lo, l1, l2);
    lemma_rat_le_trans(lo, l2, lo3);
    lemma_rat_le_lt_trans(lo, lo3, t);
    lemma_rat_le_trans(h2, h1, hi);
    lemma_rat_le_trans(hi3, h2, hi);
    lemma_rat_lt_le_trans(t, hi3, hi);
    // inside every axis slab
    if dx != 0 {
        lemma_rat_le_trans(axis_t_lo(ox, dx, b.x), l1, l2);
        lemma_rat_le_trans(axis_t_lo(ox, dx, b.x), l2, lo3);
        lemma_rat_le_lt_trans(axis_t_lo(ox, dx, b.x), lo3, t);
        lemma_rat_lt_le_trans(t, hi3, h2);
        lemma_rat_lt_le_trans(t, h2, h1);
        lemma_rat_lt_le_trans(t, h1, axis_t_hi(ox, dx, b.x));
        lemma_rat_order_total(axis_t_lo(ox, dx, b.x), t);
        lemma_rat_order_total(t, axis_t_hi(ox, dx, b.x));
        lemma_axis_member_iff_bounds(ox, dx, b.x, t);
    } else {
        lemma_axis_member_parallel(ox, dx, b.x, t);
    }
    if dy != 0 {
        lemma_rat_le_trans(axis_t_lo(oy, dy, b.y), l2, lo3);
        lemma_rat_le_lt_trans(axis_t_lo(oy, dy, b.y), lo3, t);
        lemma_rat_lt_le_trans(t, hi3, h2);
        lemma_rat_lt_le_trans(t, h2, axis_t_hi(oy, dy, b.y));
        lemma_rat_order_total(axis_t_lo(oy, dy, b.y), t);
        lemma_rat_order_total(t, axis_t_hi(oy, dy, b.y));
        lemma_axis_member_iff_bounds(oy, dy, b.y, t);
    } else {
        lemma_axis_member_parallel(oy, dy, b.y, t);
    }
    if dz != 0 {
        lemma_rat_le_lt_trans(axis_t_lo(oz, dz, b.z), lo3, t);
        lemma_rat_lt_le_trans(t, hi3, axis_t_hi(oz, dz, b.z));
        lemma_rat_order_total(axis_t_lo(oz, dz, b.z), t);
        lemma_rat_order_total(t, axis_t_hi(oz, dz, b.z));
        lemma_axis_member_iff_bounds(oz, dz, b.z, t);
    } else {
        lemma_axis_member_parallel(oz, dz, b.z, t);
    }
    t
}

} // verus!
