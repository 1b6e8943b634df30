//! Scene-level tests: traversal equivalence, integrator, dielectrics.
//!
//! World scale: 256 integer units per scene unit unless noted.

use raytracing::vec3::Vec3;
use raytracing::frac::Frac;
use raytracing::interval::RaySpan;
use raytracing::ray::Ray;
use raytracing::sphere::Sphere;
use raytracing::material::Material;
use raytracing::texture::Texture;
use raytracing::hittable::Primitive;
use raytracing::hittable_list::HittableList;
use raytracing::bvh::BvhNode;
use raytracing::camera::{Camera, ray_color, sky_color};
use raytracing::rng::new_rng;
use raytracing::FP_ONE;

const S: i64 = 256;

fn span() -> RaySpan {
    RaySpan { min: Frac::new(1, 1000), max: Frac::new(1 << 40, 1) }
}

fn red_lambertian() -> Material {
    Material::lambertian(Texture::new_solid_rgb(FP_ONE, FP_ONE / 8, FP_ONE / 8))
}

/// Exact value equality of two hit parameters.
fn same_t(a: &Frac, b: &Frac) -> bool {
    a.n * b.d == b.n * a.d
}

/// A deterministic pseudo-random stream for scene construction, so the
/// same scene can be built twice.
struct Lcg(u64);

impl Lcg {
    fn next(&mut self) -> u64 {
        self.0 = self.0.wrapping_mul(6364136223846793005).wrapping_add(1442695040888963407);
        self.0 >> 33
    }

    fn range(&mut self, lo: i64, hi: i64) -> i64 {
        lo + (self.next() % ((hi - lo) as u64)) as i64
    }
}

fn random_spheres(seed: u64, n: usize) -> Vec<(Vec3, i64)> {
    let mut lcg = Lcg(seed);
    let mut out = Vec::new();
    for _ in 0..n {
        let c = Vec3::new(
            lcg.range(-200 * S, 200 * S),
            lcg.range(-200 * S, 200 * S),
            lcg.range(-200 * S, 200 * S),
        );
        let r = lcg.range(S / 4, 8 * S);
        out.push((c, r));
    }
    out
}

#[test]
fn bvh_matches_linear_scan_on_random_spheres() {
    let params = random_spheres(7, 200);
    let mut list = HittableList::new();
    let mut for_tree: Vec<Primitive> = Vec::new();
    for (c, r) in &params {
        list.add(Primitive::Sphere(Sphere::new(*c, *r, red_lambertian())));
        for_tree.push(Primitive::Sphere(Sphere::new(*c, *r, red_lambertian())));
    }
    let mut rng = new_rng();
    let tree = BvhNode::from_vec(for_tree, &mut rng);
    let mut lcg = Lcg(99);
    let mut hits = 0usize;
    for _ in 0..500 {
        let orig = Vec3::new(
            lcg.range(-220 * S, 220 * S),
            lcg.range(-220 * S, 220 * S),
            lcg.range(-220 * S, 220 * S),
        );
        let dir = Vec3::new(lcg.range(-S, S + 1), lcg.range(-S, S + 1), lcg.range(-S, S + 1));
        let ray = Ray::new(orig, dir);
        let a = list.hit(&ray, &span());
        let b = tree.hit(&ray, &span());
        match (a, b) {
            (None, None) => {},
            (Some(ha), Some(hb)) => {
                assert!(same_t(&ha.t, &hb.t));
                hits += 1;
            },
            _ => panic!("tree and scan disagree on a hit"),
        }
    }
    assert!(hits > 10, "the ray batch should hit something");
}

#[test]
fn two_builds_agree_on_hits() {
    let params = random_spheres(11, 64);
    let mut t1: Vec<Primitive> = Vec::new();
    let mut t2: Vec<Primitive> = Vec::new();
    for (c, r) in &params {
        t1.push(Primitive::Sphere(Sphere::new(*c, *r, red_lambertian())));
        t2.push(Primitive::Sphere(Sphere::new(*c, *r, red_lambertian())));
    }
    let mut rng = new_rng();
    let a = BvhNode::from_vec(t1, &mut rng);
    let b = BvhNode::from_vec(t2, &mut rng);
    let mut lcg = Lcg(5);
    for _ in 0..300 {
        let orig = Vec3::new(
            lcg.range(-220 * S, 220 * S),
            lcg.range(-220 * S, 220 * S),
            lcg.range(-220 * S, 220 * S),
        );
        let dir = Vec3::new(lcg.range(-S, S + 1), lcg.range(-S, S + 1), lcg.range(-S, S + 1));
        let ray = Ray::new(orig, dir);
        match (a.hit(&ray, &span()), b.hit(&ray, &span())) {
            (None, None) => {},
            (Some(ha), Some(hb)) => assert!(same_t(&ha.t, &hb.t)),
            _ => panic!("two builds disagree"),
        }
    }
}

#[test]
fn single_sphere_misses_return_sky() {
    // a unit sphere at the origin; camera at (0, 0, 3)
    let sphere = Sphere::new(
        Vec3::new(0, 0, 0),
        S,
        Material::lambertian(Texture::new_solid_rgb(FP_ONE, FP_ONE, FP_ONE)),
    );
    let mut prims: Vec<Primitive> = Vec::new();
    prims.push(Primitive::Sphere(sphere));
    let mut rng = new_rng();
    let world = BvhNode::from_vec(prims, &mut rng);
    // a ray that misses entirely returns exactly the sky blend
    let miss = Ray::new(Vec3::new(0, 0, 3 * S), Vec3::new(0, 2 * S, S));
    let c = ray_color(&miss, 1, &world, &mut rng);
    assert_eq!(c, sky_color(&miss));
    // a ray that hits produces a nonnegative color
    let hit = Ray::new(Vec3::new(0, 0, 3 * S), Vec3::new(0, 0, -S));
    let ch = ray_color(&hit, 1, &world, &mut rng);
    assert!(ch.x >= 0 && ch.y >= 0 && ch.z >= 0);
    // and a tiny render completes with a well-formed buffer
    let mut cam = Camera::new(1, 1, 4);
    cam.samples_per_pixel = 1;
    cam.max_bounces = 1;
    cam.lookfrom = Vec3::new(0, 0, 3 * S);
    cam.lookat = Vec3::new(0, 0, 0);
    cam.vup = Vec3::new(0, S, 0);
    cam.update();
    cam.render_no_preview(&world, &mut rng);
    assert_eq!(cam.imgbuf.width, 4);
    assert_eq!(cam.imgbuf.height, 4);
    assert_eq!(cam.imgbuf.data.len(), 48);
}

#[test]
fn two_spheres_up_ray_sees_zenith() {
    // ground sphere and a small one at the origin
    let mut prims: Vec<Primitive> = Vec::new();
    prims.push(Primitive::Sphere(Sphere::new(
        Vec3::new(0, -1000 * S, 0),
        1000 * S,
        red_lambertian(),
    )));
    prims.push(Primitive::Sphere(Sphere::new(Vec3::new(0, 0, 0), S / 2, red_lambertian())));
    let mut rng = new_rng();
    let world = BvhNode::from_vec(prims, &mut rng);
    // straight down from (0, 1, 0): something is hit, and close by
    let down = Ray::new(Vec3::new(0, S, 0), Vec3::new(0, -S, 0));
    let h = world.hit(&down, &span()).expect("down ray must hit");
    // the nearest surface is the small sphere's top at t = 1/2
    assert!(h.t.n * 2 == h.t.d);
    // straight up from (0, 1, 0): misses both, returns the zenith blue
    let up = Ray::new(Vec3::new(0, S, 0), Vec3::new(0, S, 0));
    assert!(world.hit(&up, &span()).is_none());
    let c = ray_color(&up, 4, &world, &mut rng);
    assert_eq!(c, Vec3::new(FP_ONE / 2, 45875, FP_ONE));
}

#[test]
fn dielectric_mostly_refracts_at_normal_incidence() {
    // a glass sphere of radius 1/2, index 1.5
    let glass = Material::dielectric(98304);
    let sphere = Sphere::new(Vec3::new(0, 0, 0), S / 2, glass);
    let mut rng = new_rng();
    let ray = Ray::new(Vec3::new(0, 0, 4 * S), Vec3::new(0, 0, -S));
    let mut refracted = 0usize;
    let n = 200usize;
    for _ in 0..n {
        let h = sphere.hit(&ray, &span()).expect("must hit");
        let m = h.material.expect("sphere carries a material");
        let (_att, scattered) = m.scatter(&ray, &h, &mut rng);
        let sr = scattered.expect("dielectric always scatters");
        if sr.dir.z < 0 {
            refracted += 1;
        }
    }
    // Schlick reflectance at normal incidence is about 4%; at least a
    // fifth of the rays must pass through
    assert!(refracted * 5 >= n, "only {} of {} refracted", refracted, n);
}

#[test]
fn emissive_terminates_with_scaled_color() {
    let lamp = Material::emissive(Vec3::new(FP_ONE, FP_ONE / 2, 0), 4 * FP_ONE);
    let sphere = Sphere::new(Vec3::new(0, 0, 0), S, lamp);
    let mut rng = new_rng();
    let ray = Ray::new(Vec3::new(0, 0, 3 * S), Vec3::new(0, 0, -S));
    let h = sphere.hit(&ray, &span()).expect("must hit");
    let m = h.material.expect("material");
    let (att, scattered) = m.scatter(&ray, &h, &mut rng);
    assert!(scattered.is_none());
    assert_eq!(att, Vec3::new(4 * FP_ONE, 2 * FP_ONE, 0));
}

#[test]
fn camera_derives_height_from_aspect() {
    let cam = Camera::new(16, 9, 1600);
    assert_eq!(cam.image_width, 1600);
    assert_eq!(cam.image_height, 900);
    assert_eq!(cam.samples_per_pixel, 16);
    assert_eq!(cam.max_bounces, 10);
    let tall = Camera::new(100, 1, 50);
    assert_eq!(tall.image_height, 1);
}
