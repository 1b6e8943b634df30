//! Mesh, texture and framebuffer tests.

use raytracing::vec3::Vec3;
use raytracing::frac::Frac;
use raytracing::vec3::RatVec3;
use raytracing::interval::RaySpan;
use raytracing::ray::Ray;
use raytracing::material::Material;
use raytracing::texture::{Texture, ImageData};
use raytracing::triangle::Mesh;
use raytracing::obj::{Obj, Face};
use raytracing::color::{FrameBuffer, write_color};
use raytracing::rng::new_rng;
use raytracing::FP_ONE;

const S: i64 = 1024;

fn span() -> RaySpan {
    RaySpan { min: Frac::new(1, 1000), max: Frac::new(1 << 40, 1) }
}

#[test]
fn mesh_load_fans_quads_into_triangles() {
    // one quad face over four vertices: a unit square in the z = 0
    // plane, facing +z
    let obj = Obj {
        vertices: vec![
            Vec3::new(-S, -S, 0),
            Vec3::new(S, -S, 0),
            Vec3::new(S, S, 0),
            Vec3::new(-S, S, 0),
        ],
        faces: vec![Face::Quad(0, 1, 2, 3, None)],
    };
    let mut rng = new_rng();
    let mesh = Mesh::load(&obj, &mut rng).expect("well-formed geometry");
    // rays through both fan halves hit; a ray beside the square misses
    let r1 = Ray::new(Vec3::new(S / 2, -S / 2, 2 * S), Vec3::new(0, 0, -S));
    let r2 = Ray::new(Vec3::new(-S / 2, S / 2, 2 * S), Vec3::new(0, 0, -S));
    let r3 = Ray::new(Vec3::new(3 * S, 0, 2 * S), Vec3::new(0, 0, -S));
    assert!(mesh.hit(&r1, &span()).is_some());
    assert!(mesh.hit(&r2, &span()).is_some());
    assert!(mesh.hit(&r3, &span()).is_none());
}

#[test]
fn mesh_load_rejects_bad_indices() {
    let obj = Obj {
        vertices: vec![Vec3::new(0, 0, 0), Vec3::new(S, 0, 0)],
        faces: vec![Face::Triangle(0, 1, 5, None)],
    };
    let mut rng = new_rng();
    assert!(Mesh::load(&obj, &mut rng).is_none());
}

#[test]
fn mesh_single_triangle_wrapper_hits() {
    let mesh = Mesh::new_triangle(
        Vec3::new(0, 0, 0),
        Vec3::new(S, 0, 0),
        Vec3::new(0, S, 0),
        None,
    );
    let r = Ray::new(Vec3::new(S / 4, S / 4, S), Vec3::new(0, 0, -S));
    let h = mesh.hit(&r, &span()).expect("must hit");
    // a face without its own material gets the diagnostic default
    assert!(h.material.is_some());
}

#[test]
fn checker_alternates_in_world_space() {
    let even = Texture::new_solid_rgb(FP_ONE, FP_ONE, FP_ONE);
    let odd = Texture::new_solid_rgb(0, 0, 0);
    // the smallest scale: cells are one fixed-point unit wide in
    // world coordinates
    let checker = Texture::new_checkered(1, even, odd);
    let p0 = RatVec3 { nx: FP_ONE as i128 / 2, ny: 0, nz: 0, d: 1 };
    let p1 = RatVec3 { nx: 3 * (FP_ONE as i128) / 2, ny: 0, nz: 0, d: 1 };
    let c0 = checker.value(0, 0, &p0);
    let c1 = checker.value(0, 0, &p1);
    assert_eq!(c0, Vec3::new(FP_ONE, FP_ONE, FP_ONE));
    assert_eq!(c1, Vec3::new(0, 0, 0));
}

#[test]
fn image_texture_samples_pixels_and_missing_is_magenta() {
    // a 2x1 image: left pixel red, right pixel blue
    let img = ImageData { width: 2, height: 1, pixels: vec![255, 0, 0, 0, 0, 255] };
    let tex = Texture::new_image(Some(img));
    let p = RatVec3 { nx: 0, ny: 0, nz: 0, d: 1 };
    let left = tex.value(0, FP_ONE / 2, &p);
    let right = tex.value(FP_ONE - 1, FP_ONE / 2, &p);
    assert!(left.x > left.z);
    assert!(right.z > right.x);
    let missing = Texture::new_image(None);
    assert_eq!(missing.value(0, 0, &p), Vec3::new(FP_ONE, 0, FP_ONE));
}

#[test]
fn write_color_stores_gamma_bytes() {
    let mut fb = FrameBuffer::new(2, 2);
    // full white clamps just below one and lands on byte 255
    write_color(1, 0, &mut fb, Vec3::new(FP_ONE, FP_ONE, FP_ONE));
    let idx = 3 * (0 * 2 + 1);
    assert_eq!(fb.data[idx], 255);
    assert_eq!(fb.data[idx + 1], 255);
    assert_eq!(fb.data[idx + 2], 255);
    // black stays black
    write_color(0, 1, &mut fb, Vec3::new(0, 0, 0));
    let idx2 = 3 * (1 * 2 + 0);
    assert_eq!(fb.data[idx2], 0);
    // a quarter-intensity channel gamma-corrects to one half
    write_color(0, 0, &mut fb, Vec3::new(FP_ONE / 4, 0, 0));
    assert_eq!(fb.data[0], 128);
}

#[test]
fn sphere_uv_poles_and_equator() {
    // latitude is linear in height: the bottom pole maps to v = 0,
    // the top pole to v = 1, the equator to 1/2
    let top = RatVec3 { nx: 0, ny: S as i128, nz: 0, d: 1 };
    let bottom = RatVec3 { nx: 0, ny: -(S as i128), nz: 0, d: 1 };
    let equator = RatVec3 { nx: S as i128, ny: 0, nz: 0, d: 1 };
    let (_, v_top) = raytracing::sphere::Sphere::uv(&top, S);
    let (_, v_bot) = raytracing::sphere::Sphere::uv(&bottom, S);
    let (u_eq, v_eq) = raytracing::sphere::Sphere::uv(&equator, S);
    assert_eq!(v_top, FP_ONE);
    assert_eq!(v_bot, 0);
    assert_eq!(v_eq, FP_ONE / 2);
    // the +x meridian maps to u = 1/2, as in the reference chart
    assert_eq!(u_eq, FP_ONE / 2);
}
