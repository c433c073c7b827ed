use rand::SeedableRng;
use raytracer::SCALE;
use raytracer::vec3::Vec3;
use raytracer::ray::Ray;
use raytracer::camera::Camera;
use raytracer::color::encode;
use raytracer::hittable::HittableList;
use raytracer::material::{Lambertian, Material};
use raytracer::render::{ppm_header, ray_color, render};
use raytracer::rng::{random_fraction, random_in_range};
use raytracer::sphere::Sphere;

fn rng() -> rand::rngs::StdRng {
    rand::rngs::StdRng::seed_from_u64(7)
}

fn pinhole() -> Camera {
    Camera::new(
        Vec3::new(0, 0, 0),
        Vec3::new(0, 0, -SCALE),
        Vec3::new(0, SCALE, 0),
        90_000_000,
        SCALE,
        0,
        SCALE,
    )
    .expect("camera parameters are not degenerate")
}

#[test]
fn depth_zero_is_black() {
    let mut world = HittableList::new();
    world.add(Sphere::new(
        Vec3::new(0, 0, -SCALE),
        500_000,
        Material::Lambertian(Lambertian::new(Vec3::new(500_000, 500_000, 500_000))),
    ));
    let ray = Ray::new(Vec3::new(0, 0, 0), Vec3::new(0, 0, -SCALE));
    let c = ray_color(&ray, &world, 0, &mut rng());
    assert_eq!(c, Vec3::new(0, 0, 0));
}

#[test]
fn background_gradient_up_is_sky_blue() {
    let world = HittableList::new();
    let ray = Ray::new(Vec3::new(0, 0, 0), Vec3::new(0, SCALE, 0));
    let c = ray_color(&ray, &world, 10, &mut rng());
    assert_eq!(c, Vec3::new(500_000, 700_000, SCALE));
}

#[test]
fn background_gradient_down_is_white() {
    let world = HittableList::new();
    let ray = Ray::new(Vec3::new(0, 0, 0), Vec3::new(0, -SCALE, 0));
    let c = ray_color(&ray, &world, 10, &mut rng());
    assert_eq!(c, Vec3::new(SCALE, SCALE, SCALE));
}

#[test]
fn header_matches_format() {
    assert_eq!(ppm_header(400, 225).as_str(), "P3\n400 225\n255\n");
    assert_eq!(ppm_header(2, 2).as_str(), "P3\n2 2\n255\n");
}

#[test]
fn encode_clamps_and_scales() {
    // An over-bright channel clamps to 0.999 and encodes as 255; a zero
    // channel encodes as 0.
    let line = encode(&Vec3::new(1_500_000, 0, 0), 1);
    assert_eq!(line.as_str(), "255 0 0\n");
}

#[test]
fn encode_applies_gamma() {
    // 0.25 averaged over one sample, gamma-corrected to 0.5: the byte is
    // 256 * 0.5 truncated.
    let line = encode(&Vec3::new(250_000, 250_000, 250_000), 1);
    assert_eq!(line.as_str(), "128 128 128\n");
}

#[test]
fn encode_averages_over_samples() {
    // Four samples summing to 1.0 average to 0.25, gamma 0.5, byte 128.
    let line = encode(&Vec3::new(1_000_000, 0, 1_000_000), 4);
    assert_eq!(line.as_str(), "128 0 128\n");
}

#[test]
fn zero_aperture_ignores_the_lens_sample() {
    let cam = pinhole();
    let d1 = Vec3::new(900_000, -100_000, 0);
    let d2 = Vec3::new(-250_000, 750_000, 0);
    let r1 = cam.get_ray_with(500_000, 500_000, d1);
    let r2 = cam.get_ray_with(500_000, 500_000, d2);
    assert_eq!(r1, r2);
    let r3 = cam.get_ray_with(0, 0, d1);
    let r4 = cam.get_ray_with(0, 0, d2);
    assert_eq!(r3, r4);
}

#[test]
fn camera_refuses_coincident_look_points() {
    let res = Camera::new(
        Vec3::new(0, 0, 0),
        Vec3::new(0, 0, 0),
        Vec3::new(0, SCALE, 0),
        90_000_000,
        SCALE,
        0,
        SCALE,
    );
    assert!(res.is_none());
}

#[test]
fn camera_refuses_up_parallel_to_view() {
    let res = Camera::new(
        Vec3::new(0, 0, 0),
        Vec3::new(0, 0, -SCALE),
        Vec3::new(0, 0, SCALE),
        90_000_000,
        SCALE,
        0,
        SCALE,
    );
    assert!(res.is_none());
}

#[test]
fn render_produces_header_and_one_line_per_pixel() {
    let mut world = HittableList::new();
    world.add(Sphere::new(
        Vec3::new(0, 0, -SCALE),
        500_000,
        Material::Lambertian(Lambertian::new(Vec3::new(500_000, 500_000, 500_000))),
    ));
    let cam = pinhole();
    let out = render(&world, &cam, 3, 2, 2, 4, &mut rng());
    assert!(out.starts_with("P3\n3 2\n255\n"));
    let lines: Vec<&str> = out.lines().collect();
    assert_eq!(lines.len(), 3 + 3 * 2);
    for line in &lines[3..] {
        let parts: Vec<&str> = line.split(' ').collect();
        assert_eq!(parts.len(), 3);
        for p in parts {
            let v: u32 = p.parse().expect("a decimal byte");
            assert!(v <= 255);
        }
    }
}

#[test]
fn random_draws_stay_in_range() {
    let mut r = rng();
    for _ in 0..200 {
        let f: i64 = random_fraction(&mut r);
        assert!((0..SCALE).contains(&f));
        let g: i64 = random_in_range(&mut r, -3, 9);
        assert!((-3..9).contains(&g));
    }
}

#[test]
fn random_unit_vectors_have_unit_length() {
    let mut r = rng();
    for _ in 0..50 {
        let v = Vec3::random_unit_vector(&mut r);
        assert!((SCALE - v.norm()).abs() <= 10);
    }
}

#[test]
fn random_in_unit_sphere_is_inside_and_nonzero() {
    let mut r = rng();
    for _ in 0..50 {
        let v = Vec3::random_in_unit_sphere(&mut r);
        assert!(v.squared_norm() < SCALE);
        assert!(!v.near_zero());
    }
}

#[test]
fn random_in_unit_disk_is_flat_and_inside() {
    let mut r = rng();
    for _ in 0..50 {
        let v = Vec3::random_in_unit_disk(&mut r);
        assert_eq!(v.z, 0);
        assert!(v.squared_norm() < SCALE);
    }
}
