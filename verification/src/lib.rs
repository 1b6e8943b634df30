//! An offline Monte-Carlo path tracer over exact integer geometry.
//!
//! Scene coordinates are 64-bit integers in caller-chosen world units;
//! ray parameters, hit points and surface coordinates are exact rationals.
//! All intersection logic is verified against that exact arithmetic.

use vstd::prelude::*;

pub mod frac;
pub mod vec3;
pub mod interval;
pub mod aabb;
pub mod ray;
pub mod texture;
pub mod material;
pub mod hittable;
pub mod sphere;
pub mod quad;
pub mod triangle;
pub mod bvh;
pub mod rng;
pub mod hittable_list;
pub mod color;
pub mod camera;
pub mod obj;
pub mod laws;

verus! {

/// Largest magnitude allowed for a primitive coordinate (vertex, center,
/// box bound, ray direction component). Chosen so that every intermediate
/// product in the intersection routines fits in `i128`.
pub const COORD_MAX: i64 = 262144;

/// Largest magnitude allowed for a ray origin component.
pub const ORIGIN_MAX: i64 = 1048576;

/// The fixed-point unit: colors, surface coordinates and material
/// parameters are integers at this scale (so `FP_ONE` is 1.0).
pub const FP_ONE: i64 = 65536;

} // verus!
