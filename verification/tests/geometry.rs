use raytracer::SCALE;
use raytracer::vec3::Vec3;
use raytracer::ray::Ray;
use raytracer::sphere::Sphere;
use raytracer::hittable::{Hittable, HittableList};
use raytracer::material::{Lambertian, Material};
use raytracer::fixed::T_LIMIT;

fn gray() -> Material {
    Material::Lambertian(Lambertian::new(Vec3::new(500_000, 500_000, 500_000)))
}

#[test]
fn vector_arithmetic_is_exact() {
    let a = Vec3::new(1_000_000, 2_000_000, -3_000_000);
    let b = Vec3::new(500_000, -500_000, 1_000_000);
    assert_eq!(a.add(&b), Vec3::new(1_500_000, 1_500_000, -2_000_000));
    assert_eq!(a.sub(&b), Vec3::new(500_000, 2_500_000, -4_000_000));
    assert_eq!(a.neg(), Vec3::new(-1_000_000, -2_000_000, 3_000_000));
    assert_eq!(a.scale(2_000_000), Vec3::new(2_000_000, 4_000_000, -6_000_000));
    assert_eq!(a.mul(&b), Vec3::new(500_000, -1_000_000, -3_000_000));
    assert_eq!(a.div(2_000_000), Vec3::new(500_000, 1_000_000, -1_500_000));
    // 1*0.5 + 2*(-0.5) + (-3)*1 = -3.5
    assert_eq!(a.dot(&b), -3_500_000);
}

#[test]
fn cross_product_of_axes() {
    let x = Vec3::new(SCALE, 0, 0);
    let y = Vec3::new(0, SCALE, 0);
    assert_eq!(x.cross(&y), Vec3::new(0, 0, SCALE));
    assert_eq!(y.cross(&x), Vec3::new(0, 0, -SCALE));
}

#[test]
fn normalize_exact_on_pythagorean_triple() {
    let v = Vec3::new(3_000_000, 4_000_000, 0);
    let n = v.normalize();
    assert_eq!(n, Vec3::new(600_000, 800_000, 0));
    assert_eq!(n.norm(), SCALE);
}

#[test]
fn normalize_length_is_one_within_quantization() {
    // The fixed-point analog of unit length within floating-point
    // tolerance: the length of a normalized vector sits within a few
    // millionths of one.
    let cases = [
        Vec3::new(2_000_000, 2_000_000, 2_000_000),
        Vec3::new(13_000_000, 2_000_000, 3_000_000),
        Vec3::new(-7_000_000, 1, 999_999),
        Vec3::new(0, 0, -2_000_000),
    ];
    for v in cases {
        let n: i64 = v.normalize().norm();
        assert!((SCALE - n).abs() <= 10, "norm {n}");
    }
}

#[test]
fn reflect_flips_the_normal_component() {
    let v = Vec3::new(1_000_000, -1_000_000, 0);
    let n = Vec3::new(0, 1_000_000, 0);
    assert_eq!(v.reflect(&n), Vec3::new(1_000_000, 1_000_000, 0));
}

#[test]
fn near_zero_is_exact_zero_in_fixed_point() {
    assert!(Vec3::new(0, 0, 0).near_zero());
    assert!(!Vec3::new(0, 0, 1).near_zero());
}

#[test]
fn ray_evaluates_points_along_direction() {
    let r = Ray::new(Vec3::new(SCALE, 0, 0), Vec3::new(0, 0, -SCALE));
    assert_eq!(r.at(500_000), Vec3::new(SCALE, 0, -500_000));
    assert_eq!(r.origin(), Vec3::new(SCALE, 0, 0));
    assert_eq!(r.dir(), Vec3::new(0, 0, -SCALE));
}

#[test]
fn sphere_hit_from_outside() {
    // Ray from the origin looking down -z, unit sphere of radius one half
    // centered one unit away: the near intersection is at t = 0.5.
    let s = Sphere::new(Vec3::new(0, 0, -SCALE), 500_000, gray());
    let r = Ray::new(Vec3::new(0, 0, 0), Vec3::new(0, 0, -SCALE));
    let rec = s.hit(&r, 0, T_LIMIT).expect("must hit");
    assert_eq!(rec.t, 500_000);
    assert_eq!(rec.point, Vec3::new(0, 0, -500_000));
    assert_eq!(rec.normal, Vec3::new(0, 0, SCALE));
    assert!(rec.is_outward);
}

#[test]
fn sphere_hit_excluded_by_range() {
    // The same geometry with t_max = 0.4: the near root at 0.5 and the far
    // root at 1.5 both fall outside the range, so there is no hit.
    let s = Sphere::new(Vec3::new(0, 0, -SCALE), 500_000, gray());
    let r = Ray::new(Vec3::new(0, 0, 0), Vec3::new(0, 0, -SCALE));
    assert!(s.hit(&r, 0, 400_000).is_none());
}

#[test]
fn sphere_hit_far_root_when_inside() {
    // From the center of the sphere only the far root is ahead of t_min.
    let s = Sphere::new(Vec3::new(0, 0, -SCALE), 500_000, gray());
    let r = Ray::new(Vec3::new(0, 0, -SCALE), Vec3::new(0, 0, -SCALE));
    let rec = s.hit(&r, 1_000, T_LIMIT).expect("must hit");
    assert_eq!(rec.t, 500_000);
    assert!(!rec.is_outward);
    // The stored normal opposes the ray: flipped to +z.
    assert_eq!(rec.normal, Vec3::new(0, 0, SCALE));
}

#[test]
fn degenerate_direction_yields_no_hit() {
    // A direction below one quantum of squared length is refused rather
    // than dividing by a zero leading coefficient.
    let s = Sphere::new(Vec3::new(0, 0, -SCALE), 500_000, gray());
    let r = Ray::new(Vec3::new(0, 0, 0), Vec3::new(100, 0, 0));
    assert!(s.hit(&r, 0, T_LIMIT).is_none());
}

#[test]
fn scene_returns_nearest_hit() {
    let mut world = HittableList::new();
    world.add(Sphere::new(Vec3::new(0, 0, -3_000_000), 500_000, gray()));
    world.add(Sphere::new(Vec3::new(0, 0, -SCALE), 500_000, gray()));
    let r = Ray::new(Vec3::new(0, 0, 0), Vec3::new(0, 0, -SCALE));
    let rec = world.hit(&r, 0, T_LIMIT).expect("must hit");
    // The nearer sphere wins: t = 0.5, not 2.5.
    assert_eq!(rec.t, 500_000);
}

#[test]
fn empty_scene_has_no_hit() {
    let world = HittableList::new();
    let r = Ray::new(Vec3::new(0, 0, 0), Vec3::new(0, 0, -SCALE));
    assert!(world.hit(&r, 0, T_LIMIT).is_none());
}
