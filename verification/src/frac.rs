//! Exact rational scalars.
//!
//! Ray parameters (`t` values), surface coordinates and hit points are
//! rationals `n / d` with a positive denominator. The executable type
//! [`Frac`] keeps both parts in `i128`, bounded by [`FRAC_MAX`] so that a
//! cross-multiplied comparison of two in-range fractions never overflows.

use vstd::prelude::*;

verus! {

/// Magnitude bound (`2^62`) on the numerator and denominator of an
/// in-range [`Frac`]: the product of two bounded parts stays below `2^124`.
pub const FRAC_MAX: i128 = 0x4000_0000_0000_0000;

/// Mathematical model of a fraction: an unbounded pair of integers.
pub ghost struct Rat {
    pub n: int,
    pub d: int,
}

/// `a <= b` on rationals with positive denominators, by cross-multiplying.
pub open spec fn rat_le(a: Rat, b: Rat) -> bool {
    a.n * b.d <= b.n * a.d
}

/// `a < b` on rationals with positive denominators, by cross-multiplying.
pub open spec fn rat_lt(a: Rat, b: Rat) -> bool {
    a.n * b.d < b.n * a.d
}

/// Value equality of two rationals (their representations may differ).
pub open spec fn rat_eq(a: Rat, b: Rat) -> bool {
    a.n * b.d == b.n * a.d
}

/// The rational `n / 1`.
pub open spec fn rat_int(n: int) -> Rat {
    Rat { n: n, d: 1 }
}

/// `t` lies strictly inside the open range `(lo, hi)`.
pub open spec fn rat_in_open(t: Rat, lo: Rat, hi: Rat) -> bool {
    rat_lt(lo, t) && rat_lt(t, hi)
}

/// An exact rational scalar with a positive, bounded denominator.
#[derive(Clone, Copy, Debug)]
pub struct Frac {
    pub n: i128,
    pub d: i128,
}

impl View for Frac {
    type V = Rat;

    open spec fn view(&self) -> Rat {
        Rat { n: self.n as int, d: self.d as int }
    }
}

/// Well-formedness of an executable fraction: positive denominator and
/// both parts small enough for overflow-free cross-multiplication.
pub open spec fn frac_ok(f: Frac) -> bool {
    0 < f.d <= FRAC_MAX && -FRAC_MAX <= f.n <= FRAC_MAX
}

/// `|x * y| <= a * b` whenever `|x| <= a` and `|y| <= b`.
pub proof fn lemma_mul_bound(x: int, y: int, a: int, b: int)
    requires
        -a <= x <= a,
        -b <= y <= b,
        0 <= a,
        0 <= b,
    ensures
        -(a * b) <= x * y <= a * b,
{
    assert(-(a * b) <= x * y <= a * b) by (nonlinear_arith)
        requires
            -a <= x <= a,
            -b <= y <= b,
            0 <= a,
            0 <= b,
    ;
}

impl Frac {
    /// The fraction `n / 1`.
    pub fn from_int(n: i64) -> (r: Frac)
        requires
            -FRAC_MAX <= n as int <= FRAC_MAX,
        ensures
            frac_ok(r),
            r@ == rat_int(n as int),
    {
        Frac { n: n as i128, d: 1 }
    }

    /// Builds `n / d` from raw parts.
    pub fn new(n: i128, d: i128) -> (r: Frac)
        requires
            0 < d <= FRAC_MAX,
            -FRAC_MAX <= n <= FRAC_MAX,
        ensures
            frac_ok(r),
            r@ == (Rat { n: n as int, d: d as int }),
    {
        Frac { n, d }
    }

    /// Exact comparison `self < other`.
    pub fn lt(&self, other: &Frac) -> (r: bool)
        requires
            frac_ok(*self),
            frac_ok(*other),
        ensures
            r == rat_lt(self@, other@),
    {
        proof {
            lemma_mul_bound(self.n as int, other.d as int, FRAC_MAX as int, FRAC_MAX as int);
            lemma_mul_bound(other.n as int, self.d as int, FRAC_MAX as int, FRAC_MAX as int);
        }
        self.n * other.d < other.n * self.d
    }

    /// Exact comparison `self <= other`.
    pub fn le(&self, other: &Frac) -> (r: bool)
        requires
            frac_ok(*self),
            frac_ok(*other),
        ensures
            r == rat_le(self@, other@),
    {
        proof {
            lemma_mul_bound(self.n as int, other.d as int, FRAC_MAX as int, FRAC_MAX as int);
            lemma_mul_bound(other.n as int, self.d as int, FRAC_MAX as int, FRAC_MAX as int);
        }
        self.n * other.d <= other.n * self.d
    }

    /// Exact value equality with another fraction.
    pub fn eq_val(&self, other: &Frac) -> (r: bool)
        requires
            frac_ok(*self),
            frac_ok(*other),
        ensures
            r == rat_eq(self@, other@),
    {
        proof {
            lemma_mul_bound(self.n as int, other.d as int, FRAC_MAX as int, FRAC_MAX as int);
            lemma_mul_bound(other.n as int, self.d as int, FRAC_MAX as int, FRAC_MAX as int);
        }
        self.n * other.d == other.n * self.d
    }
}

/// `<` on rationals with positive denominators is transitive.
pub proof fn lemma_rat_lt_trans(a: Rat, b: Rat, c: Rat)
    requires
        a.d > 0,
        b.d > 0,
        c.d > 0,
        rat_lt(a, b),
        rat_lt(b, c),
    ensures
        rat_lt(a, c),
{
    assert(rat_lt(a, c)) by (nonlinear_arith)
        requires
            a.d > 0,
            b.d > 0,
            c.d > 0,
            rat_lt(a, b),
            rat_lt(b, c),
    ;
}

/// `<=` then `<` composes to `<` on rationals with positive denominators.
pub proof fn lemma_rat_le_lt_trans(a: Rat, b: Rat, c: Rat)
    requires
        a.d > 0,
        b.d > 0,
        c.d > 0,
        rat_le(a, b),
        rat_lt(b, c),
    ensures
        rat_lt(a, c),
{
    assert(rat_lt(a, c)) by (nonlinear_arith)
        requires
            a.d > 0,
            b.d > 0,
            c.d > 0,
            rat_le(a, b),
            rat_lt(b, c),
    ;
}

/// `<` then `<=` composes to `<` on rationals with positive denominators.
pub proof fn lemma_rat_lt_le_trans(a: Rat, b: Rat, c: Rat)
    requires
        a.d > 0,
        b.d > 0,
        c.d > 0,
        rat_lt(a, b),
        rat_le(b, c),
    ensures
        rat_lt(a, c),
{
    assert(rat_lt(a, c)) by (nonlinear_arith)
        requires
            a.d > 0,
            b.d > 0,
            c.d > 0,
            rat_lt(a, b),
            rat_le(b, c),
    ;
}

/// `<=` is transitive on rationals with positive denominators.
pub proof fn lemma_rat_le_trans(a: Rat, b: Rat, c: Rat)
    requires
        a.d > 0,
        b.d > 0,
        c.d > 0,
        rat_le(a, b),
        rat_le(b, c),
    ensures
        rat_le(a, c),
{
    assert(rat_le(a, c)) by (nonlinear_arith)
        requires
            a.d > 0,
            b.d > 0,
            c.d > 0,
            rat_le(a, b),
            rat_le(b, c),
    ;
}

/// On rationals with positive denominators, `<=` in both directions is
/// value equality, and exactly one of `a < b`, `a == b`, `b < a` holds.
pub proof fn lemma_rat_order_total(a: Rat, b: Rat)
    requires
        a.d > 0,
        b.d > 0,
    ensures
        rat_le(a, b) <==> (rat_lt(a, b) || rat_eq(a, b)),
        rat_le(a, b) <==> !rat_lt(b, a),
        rat_eq(a, b) <==> (rat_le(a, b) && rat_le(b, a)),
{
}

/// Value equality of rationals is transitive.
pub proof fn lemma_rat_eq_trans(a: Rat, b: Rat, c: Rat)
    requires
        a.d > 0,
        b.d > 0,
        c.d > 0,
        rat_eq(a, b),
        rat_eq(b, c),
    ensures
        rat_eq(a, c),
{
    assert(rat_eq(a, c)) by (nonlinear_arith)
        requires
            a.d > 0,
            b.d > 0,
            c.d > 0,
            rat_eq(a, b),
            rat_eq(b, c),
    ;
}

/// `s` is the integer floor square root of `x`.
pub open spec fn is_sqrt_floor(x: int, s: int) -> bool {
    0 <= s && s * s <= x && x < (s + 1) * (s + 1)
}

/// The integer floor square root of a nonnegative `x`.
pub open spec fn sqrt_floor(x: int) -> int {
    choose|s: int| is_sqrt_floor(x, s)
}

/// The floor square root exists for every nonnegative integer.
pub proof fn lemma_sqrt_floor_exists(x: int)
    requires
        x >= 0,
    ensures
        is_sqrt_floor(x, sqrt_floor(x)),
    decreases x,
{
    if x == 0 {
        assert(is_sqrt_floor(0, 0));
    } else {
        lemma_sqrt_floor_exists(x - 1);
        let s0 = sqrt_floor(x - 1);
        if (s0 + 1) * (s0 + 1) == x {
            assert(is_sqrt_floor(x, s0 + 1)) by (nonlinear_arith)
                requires
                    s0 >= 0,
                    (s0 + 1) * (s0 + 1) == x,
            ;
        } else {
            assert(is_sqrt_floor(x, s0));
        }
    }
}

/// The floor square root is unique.
pub proof fn lemma_sqrt_floor_unique(x: int, s: int)
    requires
        is_sqrt_floor(x, s),
    ensures
        s == sqrt_floor(x),
{
    let s2 = sqrt_floor(x);
    assert(is_sqrt_floor(x, s2));
    assert(!(s < s2) && !(s2 < s)) by (nonlinear_arith)
        requires
            is_sqrt_floor(x, s),
            is_sqrt_floor(x, s2),
    ;
}

/// The integer square root: the largest `r` with `r * r <= x`.
pub fn isqrt_u128(x: u128) -> (r: u128)
    ensures
        r * r <= x,
        (r + 1) * (r + 1) > x,
        r <= 0x1_0000_0000_0000_0000,
{
    let mut lo: u128 = 0;
    let mut hi: u128 = 0x1_0000_0000_0000_0000;
    proof {
        assert(hi * hi > x) by (nonlinear_arith)
            requires
                hi == 0x1_0000_0000_0000_0000u128,
                x <= u128::MAX,
        ;
    }
    while hi - lo > 1
        invariant
            lo < hi <= 0x1_0000_0000_0000_0000,
            lo * lo <= x,
            hi * hi > x,
        decreases hi - lo,
    {
        let mid = lo + (hi - lo) / 2;
        proof {
            assert(mid < hi && lo < mid);
            assert(mid * mid <= 0xffff_ffff_ffff_ffff * 0xffff_ffff_ffff_ffffu128)
                by (nonlinear_arith)
                requires
                    mid <= 0xffff_ffff_ffff_ffffu128,
            ;
        }
        if mid * mid <= x {
            lo = mid;
        } else {
            hi = mid;
        }
    }
    lo
}

/// Floor division `n / d` for a positive divisor, matching the
/// mathematical (Euclidean) quotient.
pub fn floor_div_i128(n: i128, d: i128) -> (q: i128)
    requires
        0 < d,
        -0x2000_0000_0000_0000_0000_0000_0000_0000 <= n,
        n <= 0x2000_0000_0000_0000_0000_0000_0000_0000,
    ensures
        q == (n as int) / (d as int),
        n >= 0 ==> 0 <= q <= n,
        n < 0 ==> n <= q <= 0,
{
    if n >= 0 {
        let un = n as u128;
        let ud = d as u128;
        let uq = un / ud;
        proof {
            assert(uq <= un) by (nonlinear_arith)
                requires
                    ud >= 1,
                    uq == un / ud,
            ;
        }
        uq as i128
    } else {
        let un = (-n) as u128;
        let ud = d as u128;
        let uq = un / ud;
        let ur = un % ud;
        proof {
            assert(uq <= un) by (nonlinear_arith)
                requires
                    ud >= 1,
                    uq == un / ud,
            ;
            assert(un == ud * uq + ur && ur < ud) by (nonlinear_arith)
                requires
                    ud > 0,
                    uq == un / ud,
                    ur == un % ud,
            ;
            assert(ur == 0 ==> -(uq as int) == (n as int) / (d as int)) by (nonlinear_arith)
                requires
                    d > 0,
                    n == -(un as int),
                    un == (d as int) * (uq as int) + (ur as int),
                    (ur as int) < d as int,
            ;
        }
        if ur == 0 {
            -(uq as i128)
        } else {
            proof {
                assert(uq as int + 1 <= un as int) by (nonlinear_arith)
                    requires
                        un as int == (ud as int) * (uq as int) + (ur as int),
                        ur as int >= 1,
                        ud as int >= 1,
                        uq as int >= 0,
                ;
                assert(-(uq as int) - 1 == (n as int) / (d as int)) by (nonlinear_arith)
                    requires
                        d > 0,
                        n == -(un as int),
                        un == (d as int) * (uq as int) + (ur as int),
                        0 < ur as int,
                        (ur as int) < d as int,
                ;
            }
            -(uq as i128) - 1
        }
    }
}

/// Equal rationals compare the same way against any third rational.
pub proof fn lemma_rat_eq_congr(a: Rat, b: Rat, c: Rat)
    requires
        a.d > 0,
        b.d > 0,
        c.d > 0,
        rat_eq(a, b),
    ensures
        rat_lt(a, c) == rat_lt(b, c),
        rat_lt(c, a) == rat_lt(c, b),
        rat_le(a, c) == rat_le(b, c),
        rat_le(c, a) == rat_le(c, b),
{
    assert((rat_lt(a, c) == rat_lt(b, c)) && (rat_lt(c, a) == rat_lt(c, b)) && (rat_le(a, c)
        == rat_le(b, c)) && (rat_le(c, a) == rat_le(c, b))) by (nonlinear_arith)
        requires
            a.d > 0,
            b.d > 0,
            c.d > 0,
            rat_eq(a, b),
    ;
}

} // verus!
