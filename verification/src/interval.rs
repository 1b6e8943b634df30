//! Closed one-dimensional intervals.
//!
//! [`Interval`] bounds are `i64` world coordinates; an interval with
//! `min > max` is empty, and the default value is the canonical empty
//! interval (so that folding a union over a list starts correctly).
//! [`RaySpan`] is the open range of admissible ray parameters, with exact
//! rational endpoints.

use vstd::prelude::*;
use crate::frac::{Frac, frac_ok};

verus! {

/// A closed interval of `i64` coordinates; empty when `min > max`.
#[derive(Clone, Copy, Debug, PartialEq, Eq, Structural)]
pub struct Interval {
    pub min: i64,
    pub max: i64,
}

/// Both bounds of `iv` are within `b` in magnitude.
pub open spec fn interval_in(iv: Interval, b: int) -> bool {
    &&& -b <= iv.min as int <= b
    &&& -b <= iv.max as int <= b
}

/// Half of `x`, rounded toward zero.
pub open spec fn spec_half_toward_zero(x: int) -> int {
    if x >= 0 {
        x / 2
    } else {
        -((-x) / 2)
    }
}

/// The union (componentwise min/max of bounds) of two intervals.
pub open spec fn spec_interval_union(a: Interval, b: Interval) -> Interval {
    Interval {
        min: if a.min <= b.min {
            a.min
        } else {
            b.min
        },
        max: if a.max >= b.max {
            a.max
        } else {
            b.max
        },
    }
}

impl Interval {
    /// Builds the interval `[min, max]`.
    pub fn new(min: i64, max: i64) -> (r: Interval)
        ensures
            r == (Interval { min, max }),
    {
        Interval { min, max }
    }

    /// The union of two intervals: smallest interval containing both.
    pub fn from_intervals(a: &Interval, b: &Interval) -> (r: Interval)
        ensures
            r == spec_interval_union(*a, *b),
    {
        Interval {
            min: if a.min <= b.min {
                a.min
            } else {
                b.min
            },
            max: if a.max >= b.max {
                a.max
            } else {
                b.max
            },
        }
    }

    /// The exact width `max - min`, widened so it never overflows.
    pub fn size(&self) -> (r: i128)
        ensures
            r as int == self.max as int - self.min as int,
    {
        self.max as i128 - self.min as i128
    }

    /// Widens the interval by `delta / 2` on each side; the half is the
    /// integer quotient rounded toward zero, so an odd delta widens by
    /// its floor half, and a negative delta narrows symmetrically.
    pub fn expand(self, delta: i64) -> (r: Interval)
        requires
            interval_in(self, 0x2000_0000_0000_0000),
            -0x2000_0000_0000_0000 <= delta <= 0x2000_0000_0000_0000,
        ensures
            r.min as int == self.min as int - spec_half_toward_zero(delta as int),
            r.max as int == self.max as int + spec_half_toward_zero(delta as int),
    {
        let padding = if delta >= 0 {
            delta / 2
        } else {
            -((-delta) / 2)
        };
        Interval { min: self.min - padding, max: self.max + padding }
    }

    /// Inclusive membership.
    pub fn contains(&self, x: i64) -> (r: bool)
        ensures
            r == (self.min <= x && x <= self.max),
    {
        self.min <= x && x <= self.max
    }

    /// Strict membership.
    pub fn surrounds(&self, x: i64) -> (r: bool)
        ensures
            r == (self.min < x && x < self.max),
    {
        self.min < x && x < self.max
    }

    /// Clamps `x` into the interval.
    pub fn clamp(&self, x: i64) -> (r: i64)
        ensures
            x < self.min ==> r == self.min,
            self.min <= x && x > self.max ==> r == self.max,
            self.min <= x <= self.max ==> r == x,
    {
        if x < self.min {
            self.min
        } else if x > self.max {
            self.max
        } else {
            x
        }
    }
}

impl Default for Interval {
    /// The canonical empty interval: the identity of interval union.
    fn default() -> (r: Interval)
        ensures
            r.min == i64::MAX,
            r.max == i64::MIN,
    {
        Interval { min: i64::MAX, max: i64::MIN }
    }
}

/// The open range `(min, max)` of admissible ray parameters.
#[derive(Clone, Copy, Debug)]
pub struct RaySpan {
    pub min: Frac,
    pub max: Frac,
}

/// Well-formedness of a ray span: both endpoints are in-range fractions.
pub open spec fn span_ok(s: RaySpan) -> bool {
    frac_ok(s.min) && frac_ok(s.max)
}

impl RaySpan {
    /// Builds the open parameter range `(min, max)`.
    pub fn new(min: Frac, max: Frac) -> (r: RaySpan)
        ensures
            r == (RaySpan { min, max }),
    {
        RaySpan { min, max }
    }
}

} // verus!
