//! Integer 3-vectors and exact rational 3-vectors.
//!
//! A [`Vec3`] is a point, direction or color with `i64` components in
//! caller-chosen world units. Sums, differences, dot and cross products
//! are exact; contracts state them over unbounded integers.
//! A [`RatVec3`] is a point with exact rational components sharing one
//! positive denominator, as produced by evaluating a ray at a rational
//! parameter.

use vstd::prelude::*;
use crate::frac::{Rat, Frac, frac_ok, lemma_mul_bound, FRAC_MAX};

verus! {

/// Magnitude bound (`2^90`) on the numerators of an in-range [`RatVec3`].
pub const RATV_MAX: i128 = 0x40_0000_0000_0000_0000_0000;

/// A 3-vector of 64-bit integers: point, direction, or color.
#[derive(Clone, Copy, Debug, PartialEq, Eq, Structural)]
pub struct Vec3 {
    pub x: i64,
    pub y: i64,
    pub z: i64,
}

/// All three components of `v` are within `b` in magnitude.
pub open spec fn vec_in(v: Vec3, b: int) -> bool {
    &&& -b <= v.x as int <= b
    &&& -b <= v.y as int <= b
    &&& -b <= v.z as int <= b
}

/// Exact dot product over unbounded integers.
pub open spec fn spec_dot(a: Vec3, b: Vec3) -> int {
    (a.x as int) * (b.x as int) + (a.y as int) * (b.y as int) + (a.z as int) * (b.z as int)
}

/// Exact squared Euclidean norm over unbounded integers.
pub open spec fn spec_norm_sq(a: Vec3) -> int {
    spec_dot(a, a)
}

/// Exact cross product over unbounded integers, componentwise.
pub open spec fn spec_cross_x(a: Vec3, b: Vec3) -> int {
    (a.y as int) * (b.z as int) - (a.z as int) * (b.y as int)
}

/// See [`spec_cross_x`].
pub open spec fn spec_cross_y(a: Vec3, b: Vec3) -> int {
    (a.z as int) * (b.x as int) - (a.x as int) * (b.z as int)
}

/// See [`spec_cross_x`].
pub open spec fn spec_cross_z(a: Vec3, b: Vec3) -> int {
    (a.x as int) * (b.y as int) - (a.y as int) * (b.x as int)
}

impl Vec3 {
    /// Builds the vector `(x, y, z)`.
    pub fn new(x: i64, y: i64, z: i64) -> (r: Vec3)
        ensures
            r == (Vec3 { x, y, z }),
    {
        Vec3 { x, y, z }
    }

    /// The zero vector.
    pub fn zeros() -> (r: Vec3)
        ensures
            r == (Vec3 { x: 0i64, y: 0i64, z: 0i64 }),
    {
        Vec3 { x: 0, y: 0, z: 0 }
    }

    /// Componentwise sum.
    pub fn add(&self, o: &Vec3) -> (r: Vec3)
        requires
            vec_in(*self, 0x2000_0000_0000_0000),
            vec_in(*o, 0x2000_0000_0000_0000),
        ensures
            r.x as int == self.x as int + o.x as int,
            r.y as int == self.y as int + o.y as int,
            r.z as int == self.z as int + o.z as int,
    {
        Vec3 { x: self.x + o.x, y: self.y + o.y, z: self.z + o.z }
    }

    /// Componentwise difference.
    pub fn sub(&self, o: &Vec3) -> (r: Vec3)
        requires
            vec_in(*self, 0x2000_0000_0000_0000),
            vec_in(*o, 0x2000_0000_0000_0000),
        ensures
            r.x as int == self.x as int - o.x as int,
            r.y as int == self.y as int - o.y as int,
            r.z as int == self.z as int - o.z as int,
    {
        Vec3 { x: self.x - o.x, y: self.y - o.y, z: self.z - o.z }
    }

    /// Componentwise negation.
    pub fn neg(&self) -> (r: Vec3)
        requires
            vec_in(*self, 0x4000_0000_0000_0000),
        ensures
            r.x as int == -(self.x as int),
            r.y as int == -(self.y as int),
            r.z as int == -(self.z as int),
    {
        Vec3 { x: -self.x, y: -self.y, z: -self.z }
    }

    /// Exact dot product, widened to `i128`.
    pub fn dot(&self, o: &Vec3) -> (r: i128)
        requires
            vec_in(*self, 0x4000_0000_0000_0000),
            vec_in(*o, 0x4000_0000_0000_0000),
        ensures
            r as int == spec_dot(*self, *o),
    {
        proof {
            lemma_mul_bound(
                self.x as int,
                o.x as int,
                0x4000_0000_0000_0000,
                0x4000_0000_0000_0000,
            );
            lemma_mul_bound(
                self.y as int,
                o.y as int,
                0x4000_0000_0000_0000,
                0x4000_0000_0000_0000,
            );
            lemma_mul_bound(
                self.z as int,
                o.z as int,
                0x4000_0000_0000_0000,
                0x4000_0000_0000_0000,
            );
        }
        (self.x as i128) * (o.x as i128) + (self.y as i128) * (o.y as i128) + (self.z as i128)
            * (o.z as i128)
    }

    /// Exact squared norm, widened to `i128`.
    pub fn norm_squared(&self) -> (r: i128)
        requires
            vec_in(*self, 0x4000_0000_0000_0000),
        ensures
            r as int == spec_norm_sq(*self),
            r >= 0,
    {
        let r = self.dot(self);
        proof {
            lemma_mul_bound(self.x as int, self.x as int, 0x4000_0000_0000_0000, 0x4000_0000_0000_0000);
            assert((self.x as int) * (self.x as int) >= 0) by (nonlinear_arith);
            assert((self.y as int) * (self.y as int) >= 0) by (nonlinear_arith);
            assert((self.z as int) * (self.z as int) >= 0) by (nonlinear_arith);
        }
        r
    }

    /// Exact cross product. Component magnitudes at most double the
    /// product of the input bounds, so inputs bounded by `2^30` fit.
    pub fn cross(&self, o: &Vec3) -> (r: Vec3)
        requires
            vec_in(*self, 0x4000_0000),
            vec_in(*o, 0x4000_0000),
        ensures
            r.x as int == spec_cross_x(*self, *o),
            r.y as int == spec_cross_y(*self, *o),
            r.z as int == spec_cross_z(*self, *o),
            vec_in(r, 0x2000_0000_0000_0000),
    {
        proof {
            lemma_mul_bound(self.y as int, o.z as int, 0x4000_0000, 0x4000_0000);
            lemma_mul_bound(self.z as int, o.y as int, 0x4000_0000, 0x4000_0000);
            lemma_mul_bound(self.z as int, o.x as int, 0x4000_0000, 0x4000_0000);
            lemma_mul_bound(self.x as int, o.z as int, 0x4000_0000, 0x4000_0000);
            lemma_mul_bound(self.x as int, o.y as int, 0x4000_0000, 0x4000_0000);
            lemma_mul_bound(self.y as int, o.x as int, 0x4000_0000, 0x4000_0000);
        }
        Vec3 {
            x: self.y * o.z - self.z * o.y,
            y: self.z * o.x - self.x * o.z,
            z: self.x * o.y - self.y * o.x,
        }
    }
}

/// The dot product of componentwise-bounded vectors is bounded by
/// three times the product of the bounds.
pub proof fn lemma_dot_bound(a: Vec3, b: Vec3, ba: int, bb: int)
    requires
        vec_in(a, ba),
        vec_in(b, bb),
        0 <= ba,
        0 <= bb,
    ensures
        -(3 * ba * bb) <= spec_dot(a, b) <= 3 * ba * bb,
{
    lemma_mul_bound(a.x as int, b.x as int, ba, bb);
    lemma_mul_bound(a.y as int, b.y as int, ba, bb);
    lemma_mul_bound(a.z as int, b.z as int, ba, bb);
    assert(3 * ba * bb == (ba * bb) + (ba * bb) + (ba * bb)) by (nonlinear_arith);
}

/// Each cross-product component of componentwise-bounded vectors is
/// bounded by twice the product of the bounds.
pub proof fn lemma_cross_bound(a: Vec3, b: Vec3, ba: int, bb: int)
    requires
        vec_in(a, ba),
        vec_in(b, bb),
        0 <= ba,
        0 <= bb,
    ensures
        -(2 * ba * bb) <= spec_cross_x(a, b) <= 2 * ba * bb,
        -(2 * ba * bb) <= spec_cross_y(a, b) <= 2 * ba * bb,
        -(2 * ba * bb) <= spec_cross_z(a, b) <= 2 * ba * bb,
{
    lemma_mul_bound(a.y as int, b.z as int, ba, bb);
    lemma_mul_bound(a.z as int, b.y as int, ba, bb);
    lemma_mul_bound(a.z as int, b.x as int, ba, bb);
    lemma_mul_bound(a.x as int, b.z as int, ba, bb);
    lemma_mul_bound(a.x as int, b.y as int, ba, bb);
    lemma_mul_bound(a.y as int, b.x as int, ba, bb);
    assert(2 * ba * bb == (ba * bb) + (ba * bb)) by (nonlinear_arith);
}

/// Clamps an integer into `[-b, b]`.
pub open spec fn spec_clamp_mag(x: int, b: int) -> int {
    if x < -b {
        -b
    } else if x > b {
        b
    } else {
        x
    }
}

/// The numerator of the exact reflection of `v` about `n`, at the
/// denominator `n . n`: reflecting about an unnormalized axis is
/// scale-free, `reflect(v, n) = v - 2 (v . n) n / (n . n)`.
pub open spec fn reflect_num_x(v: Vec3, n: Vec3) -> int {
    spec_norm_sq(n) * (v.x as int) - 2 * spec_dot(v, n) * (n.x as int)
}

/// See [`reflect_num_x`].
pub open spec fn reflect_num_y(v: Vec3, n: Vec3) -> int {
    spec_norm_sq(n) * (v.y as int) - 2 * spec_dot(v, n) * (n.y as int)
}

/// See [`reflect_num_x`].
pub open spec fn reflect_num_z(v: Vec3, n: Vec3) -> int {
    spec_norm_sq(n) * (v.z as int) - 2 * spec_dot(v, n) * (n.z as int)
}

/// The reflection law, exactly, for the unrounded reflection `R / nn`
/// about any nonzero axis: the sum of the incoming and the reflected
/// vector is orthogonal to the axis, and the length is preserved.
/// Stated over the numerator vector `R` at denominator `nn = n . n`.
pub proof fn lemma_reflect_law(v: Vec3, n: Vec3)
    requires
        spec_norm_sq(n) > 0,
    ensures
        (reflect_num_x(v, n) + spec_norm_sq(n) * (v.x as int)) * (n.x as int) + (reflect_num_y(
            v,
            n,
        ) + spec_norm_sq(n) * (v.y as int)) * (n.y as int) + (reflect_num_z(v, n) + spec_norm_sq(n)
            * (v.z as int)) * (n.z as int) == 0,
        reflect_num_x(v, n) * reflect_num_x(v, n) + reflect_num_y(v, n) * reflect_num_y(v, n)
            + reflect_num_z(v, n) * reflect_num_z(v, n) == spec_norm_sq(n) * spec_norm_sq(n)
            * spec_norm_sq(v),
{
    let nn = spec_norm_sq(n);
    let d = spec_dot(v, n);
    let vx = v.x as int;
    let vy = v.y as int;
    let vz = v.z as int;
    let nx = n.x as int;
    let ny = n.y as int;
    let nz = n.z as int;
    let sv = vx * vx + vy * vy + vz * vz;
    // orthogonality: expand per component, then sum the atoms
    lemma_ortho_comp(nn, d, vx, nx);
    lemma_ortho_comp(nn, d, vy, ny);
    lemma_ortho_comp(nn, d, vz, nz);
    lemma_mul_dist3(nn, vx * nx, vy * ny, vz * nz);
    lemma_mul_dist3(d, nx * nx, ny * ny, nz * nz);
    assert(nn * d == d * nn) by (nonlinear_arith);
    // length: expand each square, then sum the atoms
    lemma_sq_comp(nn, d, vx, nx);
    lemma_sq_comp(nn, d, vy, ny);
    lemma_sq_comp(nn, d, vz, nz);
    lemma_mul_dist3(nn * nn, vx * vx, vy * vy, vz * vz);
    lemma_mul_dist3(nn * d, vx * nx, vy * ny, vz * nz);
    lemma_mul_dist3(d * d, nx * nx, ny * ny, nz * nz);
    assert((nn * d) * d == (d * d) * nn) by (nonlinear_arith);
    assert(nn * nn * sv == (nn * nn) * sv) by (nonlinear_arith);
}

/// The unit scaling of a vector: each component becomes
/// `v_i * FP_ONE / |v|` (floor), so the result has length close to the
/// fixed-point one; the zero vector maps to the `z` unit.
pub open spec fn spec_unit_scaled(v: Vec3) -> Vec3 {
    if spec_norm_sq(v) == 0 {
        Vec3 { x: 0i64, y: 0i64, z: 65536i64 }
    } else {
        let l = crate::frac::sqrt_floor(spec_norm_sq(v));
        Vec3 {
            x: ((v.x as int) * 65536 / l) as i64,
            y: ((v.y as int) * 65536 / l) as i64,
            z: ((v.z as int) * 65536 / l) as i64,
        }
    }
}

/// Scales a vector to fixed-point unit length, exactly as
/// [`spec_unit_scaled`]; the result stays within one fixed-point unit.
pub fn unit_scaled(v: &Vec3) -> (r: Vec3)
    requires
        vec_in(*v, 0x4000_0000_0000),
    ensures
        r == spec_unit_scaled(*v),
        vec_in(r, 65536),
{
    proof {
        lemma_dot_bound(*v, *v, 0x4000_0000_0000, 0x4000_0000_0000);
        assert((v.x as int) * (v.x as int) >= 0 && (v.y as int) * (v.y as int) >= 0 && (
        v.z as int) * (v.z as int) >= 0) by (nonlinear_arith);
    }
    let nsq = v.dot(v);
    if nsq == 0 {
        return Vec3 { x: 0, y: 0, z: 65536 };
    }
    let l = crate::frac::isqrt_u128(nsq as u128);
    proof {
        crate::frac::lemma_sqrt_floor_unique(nsq as int, l as int);
        let li = l as int;
        let nq = nsq as int;
        assert(li >= 1) by (nonlinear_arith)
            requires
                li * li <= nq,
                nq < (li + 1) * (li + 1),
                nq >= 1,
                li >= 0,
        ;
        lemma_unit_div_bound(v.x as int, li, nq);
        lemma_unit_div_bound(v.y as int, li, nq);
        lemma_unit_div_bound(v.z as int, li, nq);
    }
    let li = l as i128;
    let x = crate::frac::floor_div_i128((v.x as i128) * 65536, li) as i64;
    let y = crate::frac::floor_div_i128((v.y as i128) * 65536, li) as i64;
    let z = crate::frac::floor_div_i128((v.z as i128) * 65536, li) as i64;
    Vec3 { x, y, z }
}

/// One scaled component of a unit vector is within the fixed-point one.
proof fn lemma_unit_div_bound(x: int, l: int, nsq: int)
    requires
        l >= 1,
        l * l <= nsq,
        x * x <= nsq,
        nsq < (l + 1) * (l + 1),
    ensures
        -65536 <= x * 65536 / l <= 65536,
{
    assert(-l <= x <= l) by (nonlinear_arith)
        requires
            l >= 1,
            x * x <= nsq,
            nsq < (l + 1) * (l + 1),
    ;
    assert(-65536 <= x * 65536 / l <= 65536) by (nonlinear_arith)
        requires
            l >= 1,
            -l <= x <= l,
    ;
}

/// The reflection of `v` about the axis `n`, rounded componentwise:
/// `v - 2 (v . n) n / (n . n)` with floor division, clamped into the
/// direction budget.
pub open spec fn spec_reflect(v: Vec3, n: Vec3) -> Vec3 {
    let nn = spec_norm_sq(n);
    let d2 = 2 * spec_dot(v, n);
    Vec3 {
        x: spec_clamp_mag((v.x as int) - d2 * (n.x as int) / nn, 262144) as i64,
        y: spec_clamp_mag((v.y as int) - d2 * (n.y as int) / nn, 262144) as i64,
        z: spec_clamp_mag((v.z as int) - d2 * (n.z as int) / nn, 262144) as i64,
    }
}

/// Reflects `v` about `n`, exactly as [`spec_reflect`].
pub fn reflect(v: &Vec3, n: &Vec3) -> (r: Vec3)
    requires
        vec_in(*v, 0x4_0000),
        vec_in(*n, 0x4_0000),
        spec_norm_sq(*n) > 0,
    ensures
        r == spec_reflect(*v, *n),
        vec_in(r, 262144),
{
    proof {
        lemma_dot_bound(*v, *n, 0x4_0000, 0x4_0000);
        lemma_dot_bound(*n, *n, 0x4_0000, 0x4_0000);
        lemma_mul_bound(2 * spec_dot(*v, *n), n.x as int, 0x1_8000_0000_0000, 0x4_0000);
        lemma_mul_bound(2 * spec_dot(*v, *n), n.y as int, 0x1_8000_0000_0000, 0x4_0000);
        lemma_mul_bound(2 * spec_dot(*v, *n), n.z as int, 0x1_8000_0000_0000, 0x4_0000);
    }
    let nn = n.dot(n);
    let d2 = 2 * v.dot(n);
    let qx = crate::frac::floor_div_i128(d2 * (n.x as i128), nn);
    let qy = crate::frac::floor_div_i128(d2 * (n.y as i128), nn);
    let qz = crate::frac::floor_div_i128(d2 * (n.z as i128), nn);
    let x = clamp_i128((v.x as i128) - qx);
    let y = clamp_i128((v.y as i128) - qy);
    let z = clamp_i128((v.z as i128) - qz);
    Vec3 { x, y, z }
}

/// Clamps a wide value into the refraction computation budget.
fn clamp_wide(x: i128) -> (r: i128)
    ensures
        r as int == spec_clamp_mag(x as int, 0x400_0000),
        -0x400_0000 <= r <= 0x400_0000,
{
    if x < -0x400_0000 {
        -0x400_0000
    } else if x > 0x400_0000 {
        0x400_0000
    } else {
        x
    }
}

/// Clamps a wide value into the direction budget.
fn clamp_i128(x: i128) -> (r: i64)
    ensures
        r as int == spec_clamp_mag(x as int, 262144),
{
    if x < -262144 {
        -262144
    } else if x > 262144 {
        262144
    } else {
        x as i64
    }
}

/// The refraction of the unit direction `v` at a surface with unit
/// normal `n` and refraction ratio `en / ed` (Snell), in floor
/// arithmetic at the fixed-point scale: the perpendicular part is
/// `(en/ed) (v + cos n)`, the parallel part `-sqrt(1 - |perp|^2) n`,
/// with `cos` the clamped cosine of the incidence angle.
pub open spec fn spec_refract(v: Vec3, n: Vec3, en: int, ed: int) -> Vec3 {
    let c0 = -spec_dot(v, n) / 65536;
    let cos = if c0 > 65536 {
        65536int
    } else {
        c0
    };
    let px = spec_clamp_mag(en * ((v.x as int) * 65536 + cos * (n.x as int)) / (ed * 65536), 0x400_0000);
    let py = spec_clamp_mag(en * ((v.y as int) * 65536 + cos * (n.y as int)) / (ed * 65536), 0x400_0000);
    let pz = spec_clamp_mag(en * ((v.z as int) * 65536 + cos * (n.z as int)) / (ed * 65536), 0x400_0000);
    let psq = px * px + py * py + pz * pz;
    let rem = if psq <= 65536 * 65536 {
        65536 * 65536 - psq
    } else {
        psq - 65536 * 65536
    };
    let k = crate::frac::sqrt_floor(rem);
    Vec3 {
        x: spec_clamp_mag(px - k * (n.x as int) / 65536, 262144) as i64,
        y: spec_clamp_mag(py - k * (n.y as int) / 65536, 262144) as i64,
        z: spec_clamp_mag(pz - k * (n.z as int) / 65536, 262144) as i64,
    }
}

/// Refracts a unit direction, exactly as [`spec_refract`].
pub fn refract(v: &Vec3, n: &Vec3, en: i64, ed: i64) -> (r: Vec3)
    requires
        vec_in(*v, 0x2_0000),
        vec_in(*n, 0x2_0000),
        0 < en <= 0x100_0000,
        0 < ed <= 0x100_0000,
    ensures
        r == spec_refract(*v, *n, en as int, ed as int),
        vec_in(r, 262144),
{
    proof {
        lemma_dot_bound(*v, *n, 0x2_0000, 0x2_0000);
    }
    let d = v.dot(n);
    let c0 = crate::frac::floor_div_i128(-d, 65536);
    let cos = if c0 > 65536 {
        65536
    } else {
        c0
    };
    proof {
        lemma_mul_bound(cos as int, n.x as int, 0x20_0000, 0x2_0000);
        lemma_mul_bound(cos as int, n.y as int, 0x20_0000, 0x2_0000);
        lemma_mul_bound(cos as int, n.z as int, 0x20_0000, 0x2_0000);
        lemma_mul_bound(
            en as int,
            (v.x as int) * 65536 + (cos as int) * (n.x as int),
            0x100_0000,
            0x80_0000_0000,
        );
        lemma_mul_bound(
            en as int,
            (v.y as int) * 65536 + (cos as int) * (n.y as int),
            0x100_0000,
            0x80_0000_0000,
        );
        lemma_mul_bound(
            en as int,
            (v.z as int) * 65536 + (cos as int) * (n.z as int),
            0x100_0000,
            0x80_0000_0000,
        );
        lemma_mul_bound(ed as int, 65536, 0x100_0000, 65536);
    }
    let den = (ed as i128) * 65536;
    let px = clamp_wide(
        crate::frac::floor_div_i128(
            (en as i128) * ((v.x as i128) * 65536 + (cos as i128) * (n.x as i128)),
            den,
        ),
    );
    let py = clamp_wide(
        crate::frac::floor_div_i128(
            (en as i128) * ((v.y as i128) * 65536 + (cos as i128) * (n.y as i128)),
            den,
        ),
    );
    let pz = clamp_wide(
        crate::frac::floor_div_i128(
            (en as i128) * ((v.z as i128) * 65536 + (cos as i128) * (n.z as i128)),
            den,
        ),
    );
    proof {
        lemma_mul_bound(px as int, px as int, 0x400_0000, 0x400_0000);
        lemma_mul_bound(py as int, py as int, 0x400_0000, 0x400_0000);
        lemma_mul_bound(pz as int, pz as int, 0x400_0000, 0x400_0000);
    }
    let psq = px * px + py * py + pz * pz;
    let one = 65536i128 * 65536;
    let rem = if psq <= one {
        one - psq
    } else {
        psq - one
    };
    let k = crate::frac::isqrt_u128(rem as u128);
    proof {
        crate::frac::lemma_sqrt_floor_unique(rem as int, k as int);
        lemma_mul_bound(k as int, n.x as int, 0x2_0000_0000_0000_0000, 0x2_0000);
        lemma_mul_bound(k as int, n.y as int, 0x2_0000_0000_0000_0000, 0x2_0000);
        lemma_mul_bound(k as int, n.z as int, 0x2_0000_0000_0000_0000, 0x2_0000);
    }
    let ki = k as i128;
    let qx = crate::frac::floor_div_i128(ki * (n.x as i128), 65536);
    let qy = crate::frac::floor_div_i128(ki * (n.y as i128), 65536);
    let qz = crate::frac::floor_div_i128(ki * (n.z as i128), 65536);
    Vec3 { x: clamp_i128(px - qx), y: clamp_i128(py - qy), z: clamp_i128(pz - qz) }
}

/// Distribution of one factor over a three-term sum.
proof fn lemma_mul_dist3(a: int, x: int, y: int, z: int)
    ensures
        a * (x + y + z) == a * x + a * y + a * z,
{
    assert(a * (x + y + z) == a * x + a * y + a * z) by (nonlinear_arith);
}

/// One component of the orthogonality sum in the reflection law.
proof fn lemma_ortho_comp(nn: int, d: int, x: int, y: int)
    ensures
        (nn * x - 2 * d * y + nn * x) * y == 2 * (nn * (x * y)) - 2 * (d * (y * y)),
{
    assert((nn * x - 2 * d * y + nn * x) * y == 2 * (nn * (x * y)) - 2 * (d * (y * y)))
        by (nonlinear_arith);
}

/// One squared component in the length-preservation sum.
proof fn lemma_sq_comp(nn: int, d: int, x: int, y: int)
    ensures
        (nn * x - 2 * d * y) * (nn * x - 2 * d * y) == (nn * nn) * (x * x) - 4 * ((nn * d) * (x
            * y)) + 4 * ((d * d) * (y * y)),
{
    let a = nn * x;
    let b = 2 * d * y;
    assert((a - b) * (a - b) == a * a - 2 * (a * b) + b * b) by (nonlinear_arith);
    assert(a * a == (nn * nn) * (x * x)) by (nonlinear_arith)
        requires
            a == nn * x,
    ;
    assert(a * b == 2 * ((nn * d) * (x * y))) by (nonlinear_arith)
        requires
            a == nn * x,
            b == 2 * d * y,
    ;
    assert(b * b == 4 * ((d * d) * (y * y))) by (nonlinear_arith)
        requires
            b == 2 * d * y,
    ;
}

/// Mathematical model of a rational 3-vector.
pub ghost struct RatV3 {
    pub x: Rat,
    pub y: Rat,
    pub z: Rat,
}

/// A 3-vector of exact rationals sharing one positive denominator.
#[derive(Clone, Copy, Debug)]
pub struct RatVec3 {
    pub nx: i128,
    pub ny: i128,
    pub nz: i128,
    pub d: i128,
}

impl View for RatVec3 {
    type V = RatV3;

    open spec fn view(&self) -> RatV3 {
        RatV3 {
            x: Rat { n: self.nx as int, d: self.d as int },
            y: Rat { n: self.ny as int, d: self.d as int },
            z: Rat { n: self.nz as int, d: self.d as int },
        }
    }
}

/// Well-formedness of an executable rational vector.
pub open spec fn rv_ok(v: RatVec3) -> bool {
    &&& 0 < v.d <= FRAC_MAX
    &&& -RATV_MAX <= v.nx <= RATV_MAX
    &&& -RATV_MAX <= v.ny <= RATV_MAX
    &&& -RATV_MAX <= v.nz <= RATV_MAX
}

impl RatVec3 {
    /// The spec twin of [`RatVec3::from_vec`].
    pub open spec fn spec_from_vec(v: Vec3) -> RatVec3 {
        RatVec3 { nx: v.x as i128, ny: v.y as i128, nz: v.z as i128, d: 1 as i128 }
    }

    /// Embeds an integer vector as a rational vector over denominator 1.
    pub fn from_vec(v: &Vec3) -> (r: RatVec3)
        ensures
            rv_ok(r),
            r == RatVec3::spec_from_vec(*v),
            r.nx as int == v.x as int,
            r.ny as int == v.y as int,
            r.nz as int == v.z as int,
            r.d == 1,
    {
        RatVec3 { nx: v.x as i128, ny: v.y as i128, nz: v.z as i128, d: 1 }
    }

    /// Exact dot product with an integer vector: the sign and value of
    /// `self . o` times the (positive) denominator of `self`.
    pub fn dot_vec_num(&self, o: &Vec3) -> (r: i128)
        requires
            rv_ok(*self),
            vec_in(*o, 0x8000_0000),
        ensures
            r as int == (self.nx as int) * (o.x as int) + (self.ny as int) * (o.y as int) + (
            self.nz as int) * (o.z as int),
    {
        proof {
            lemma_mul_bound(self.nx as int, o.x as int, RATV_MAX as int, 0x8000_0000);
            lemma_mul_bound(self.ny as int, o.y as int, RATV_MAX as int, 0x8000_0000);
            lemma_mul_bound(self.nz as int, o.z as int, RATV_MAX as int, 0x8000_0000);
        }
        self.nx * (o.x as i128) + self.ny * (o.y as i128) + self.nz * (o.z as i128)
    }

    /// Componentwise negation, as a spec value.
    pub open spec fn spec_neg(self) -> RatVec3 {
        RatVec3 {
            nx: (-(self.nx as int)) as i128,
            ny: (-(self.ny as int)) as i128,
            nz: (-(self.nz as int)) as i128,
            d: self.d,
        }
    }

    /// Componentwise negation.
    pub fn neg(&self) -> (r: RatVec3)
        requires
            rv_ok(*self),
        ensures
            rv_ok(r),
            r == self.spec_neg(),
    {
        RatVec3 { nx: -self.nx, ny: -self.ny, nz: -self.nz, d: self.d }
    }
}

} // verus!
