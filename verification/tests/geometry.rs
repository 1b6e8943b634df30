//! Exact-geometry tests: slab test, primitive intersections, records.
//!
//! World scale in these tests: 1024 integer units per scene unit.

use raytracing::vec3::Vec3;
use raytracing::frac::Frac;
use raytracing::interval::{Interval, RaySpan};
use raytracing::aabb::AABB;
use raytracing::ray::Ray;
use raytracing::sphere::Sphere;
use raytracing::quad::Quad;
use raytracing::triangle::Triangle;
use raytracing::material::Material;
use raytracing::texture::Texture;
use raytracing::FP_ONE;

const S: i64 = 1024;

fn span() -> RaySpan {
    RaySpan { min: Frac::new(1, 1000), max: Frac::new(1 << 40, 1) }
}

fn white_lambertian() -> Material {
    Material::lambertian(Texture::new_solid_rgb(FP_ONE, FP_ONE, FP_ONE))
}

/// `t` equals the integer `v` as an exact rational.
fn t_is(t: &Frac, v: i64) -> bool {
    t.n == (v as i128) * t.d
}

#[test]
fn slab_hits_box_straight_on() {
    let b = AABB::new(
        Interval::new(-S, S),
        Interval::new(-S, S),
        Interval::new(-S, S),
    );
    let r = Ray::new(Vec3::new(0, 0, 4 * S), Vec3::new(0, 0, -S));
    assert!(r.intersects(&b, &span()));
    let away = Ray::new(Vec3::new(0, 0, 4 * S), Vec3::new(0, 0, S));
    assert!(!away.intersects(&b, &span()));
    let beside = Ray::new(Vec3::new(3 * S, 0, 4 * S), Vec3::new(0, 0, -S));
    assert!(!beside.intersects(&b, &span()));
}

#[test]
fn slab_parallel_axis_inside_and_outside() {
    let b = AABB::new(
        Interval::new(-S, S),
        Interval::new(-S, S),
        Interval::new(-S, S),
    );
    // parallel to z inside the x/y slabs
    let inside = Ray::new(Vec3::new(0, 0, -4 * S), Vec3::new(0, 0, S));
    assert!(inside.intersects(&b, &span()));
    // parallel to x, outside the y slab
    let outside = Ray::new(Vec3::new(-4 * S, 2 * S, 0), Vec3::new(S, 0, 0));
    assert!(!outside.intersects(&b, &span()));
}

#[test]
fn sphere_hit_straight_on() {
    let sp = Sphere::new(Vec3::new(0, 0, 0), S, white_lambertian());
    let r = Ray::new(Vec3::new(0, 0, 3 * S), Vec3::new(0, 0, -S));
    let h = sp.hit(&r, &span()).expect("must hit");
    // near root at t = 2: 3 - 2*1 = 1 unit from center
    assert!(t_is(&h.t, 2));
    assert!(h.front_face);
    // hit point is exactly (0, 0, S)
    assert_eq!(h.p.nx, 0);
    assert_eq!(h.p.ny, 0);
    assert_eq!(h.p.nz, (S as i128) * h.p.d);
    let miss = Ray::new(Vec3::new(0, 0, 3 * S), Vec3::new(0, 0, S));
    assert!(sp.hit(&miss, &span()).is_none());
}

#[test]
fn sphere_inside_hit_uses_far_root() {
    let sp = Sphere::new(Vec3::new(0, 0, 0), S, white_lambertian());
    // from the center, the near root is negative; the far root at t = 1
    let r = Ray::new(Vec3::new(0, 0, 0), Vec3::new(0, 0, -S));
    let h = sp.hit(&r, &span()).expect("must hit from inside");
    assert!(t_is(&h.t, 1));
    assert!(!h.front_face);
}

#[test]
fn quad_hit_center() {
    // anchor (-1,-1,0), edges (2,0,0) and (0,2,0); ray from (0,0,1)
    // toward -z hits at t = 1, surface coordinates (1/2, 1/2)
    let q = Quad::new(
        Vec3::new(-S, -S, 0),
        Vec3::new(2 * S, 0, 0),
        Vec3::new(0, 2 * S, 0),
        white_lambertian(),
    );
    let r = Ray::new(Vec3::new(0, 0, S), Vec3::new(0, 0, -S));
    let h = q.hit(&r, &span()).expect("must hit");
    assert!(t_is(&h.t, 1));
    assert_eq!(h.u, FP_ONE / 2);
    assert_eq!(h.v, FP_ONE / 2);
    // outside the quad: no hit
    let r2 = Ray::new(Vec3::new(3 * S, 0, S), Vec3::new(0, 0, -S));
    assert!(q.hit(&r2, &span()).is_none());
    // parallel to the plane: no hit
    let r3 = Ray::new(Vec3::new(0, 0, S), Vec3::new(S, 0, 0));
    assert!(q.hit(&r3, &span()).is_none());
}

#[test]
fn quad_edge_hit_is_inside() {
    // the inside test is closed: a ray meeting the quad exactly at
    // alpha = 1, beta = 0 is a hit
    let q = Quad::new(
        Vec3::new(0, 0, 0),
        Vec3::new(S, 0, 0),
        Vec3::new(0, S, 0),
        white_lambertian(),
    );
    let r = Ray::new(Vec3::new(S, 0, S), Vec3::new(0, 0, -S));
    let h = q.hit(&r, &span()).expect("a boundary hit counts");
    assert!(t_is(&h.t, 1));
    assert_eq!(h.u, FP_ONE);
    assert_eq!(h.v, 0);
}

#[test]
fn triangle_hit_barycentric() {
    // vertices (0,0,0), (1,0,0), (0,1,0); ray from (1/4, 1/4, 1)
    // toward -z hits at t = 1 with u = v = 1/4
    let t = Triangle::new(
        Vec3::new(0, 0, 0),
        Vec3::new(S, 0, 0),
        Vec3::new(0, S, 0),
        Some(white_lambertian()),
    );
    let r = Ray::new(Vec3::new(S / 4, S / 4, S), Vec3::new(0, 0, -S));
    let h = t.hit(&r, &span()).expect("must hit");
    assert!(t_is(&h.t, 1));
    assert_eq!(h.u, FP_ONE / 4);
    assert_eq!(h.v, FP_ONE / 4);
    assert!(h.front_face);
    // outside the triangle (u + v > 1)
    let r2 = Ray::new(Vec3::new(3 * S / 4, 3 * S / 4, S), Vec3::new(0, 0, -S));
    assert!(t.hit(&r2, &span()).is_none());
}

#[test]
fn triangle_backface_is_culled() {
    let t = Triangle::new(
        Vec3::new(0, 0, 0),
        Vec3::new(S, 0, 0),
        Vec3::new(0, S, 0),
        Some(white_lambertian()),
    );
    // from behind (negative z), the determinant is negative: culled
    let r = Ray::new(Vec3::new(S / 4, S / 4, -S), Vec3::new(0, 0, S));
    assert!(t.hit(&r, &span()).is_none());
}

#[test]
fn hit_record_normal_opposes_ray() {
    let sp = Sphere::new(Vec3::new(0, 0, 0), S, white_lambertian());
    let r = Ray::new(Vec3::new(0, 0, 3 * S), Vec3::new(0, 0, -S));
    let h = sp.hit(&r, &span()).expect("must hit");
    // stored normal . ray direction < 0
    let dot = h.normal.nx * (r.dir.x as i128) + h.normal.ny * (r.dir.y as i128)
        + h.normal.nz * (r.dir.z as i128);
    assert!(dot < 0);
}

#[test]
fn interval_operations() {
    let iv = Interval::new(-2, 10);
    assert!(iv.contains(10));
    assert!(!iv.surrounds(10));
    assert!(iv.surrounds(0));
    assert_eq!(iv.clamp(-5), -2);
    assert_eq!(iv.clamp(50), 10);
    assert_eq!(iv.clamp(3), 3);
    assert_eq!(iv.size(), 12);
    let e = Interval::default();
    let u = Interval::from_intervals(&e, &iv);
    assert_eq!(u.min, -2);
    assert_eq!(u.max, 10);
}

#[test]
fn aabb_union_orders_agree() {
    let a = AABB::new(Interval::new(0, 1), Interval::new(0, 1), Interval::new(0, 1));
    let b = AABB::new(Interval::new(-3, 0), Interval::new(2, 5), Interval::new(1, 1));
    let c = AABB::new(Interval::new(7, 9), Interval::new(-1, 0), Interval::new(-4, 2));
    let left = AABB::from_aabbs(&AABB::from_aabbs(&a, &b), &c);
    let right = AABB::from_aabbs(&a, &AABB::from_aabbs(&b, &c));
    let swapped = AABB::from_aabbs(&AABB::from_aabbs(&c, &b), &a);
    assert_eq!(left, right);
    assert_eq!(left, swapped);
}

#[test]
fn reflect_straight_on_and_gamma_round_trip() {
    // reflecting the -z unit about the +z axis gives the +z unit
    let v = Vec3::new(0, 0, -FP_ONE);
    let n = Vec3::new(0, 0, FP_ONE);
    let r = raytracing::vec3::reflect(&v, &n);
    assert_eq!(r, Vec3::new(0, 0, FP_ONE));
    // gamma round trip within the floor tolerance, and exact at 0 and 1
    assert_eq!(raytracing::color::gamma_channel(0), 0);
    assert_eq!(raytracing::color::gamma_channel(FP_ONE), FP_ONE);
    for &c in &[1i64, 100, 4096, 30000, 65535] {
        let g = raytracing::color::gamma_channel(c) as i128;
        let target = (c as i128) * (FP_ONE as i128);
        assert!(g * g <= target);
        assert!((g + 1) * (g + 1) > target);
    }
}

#[test]
fn refract_straight_through_at_unit_ratio() {
    let v = Vec3::new(0, 0, -FP_ONE);
    let n = Vec3::new(0, 0, FP_ONE);
    let r = raytracing::vec3::refract(&v, &n, FP_ONE, FP_ONE);
    assert_eq!(r, Vec3::new(0, 0, -FP_ONE));
}
