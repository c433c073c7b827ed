use raytracer::SCALE;
use raytracer::vec3::Vec3;
use raytracer::ray::Ray;
use raytracer::hittable::HitRecord;
use raytracer::material::{Dielectric, Lambertian, Material, Metal};

fn record(normal: Vec3, is_outward: bool) -> HitRecord {
    HitRecord {
        point: Vec3::new(0, 0, 0),
        normal,
        t: 0,
        is_outward,
        material: Material::Lambertian(Lambertian::new(Vec3::new(500_000, 500_000, 500_000))),
    }
}

#[test]
fn lambertian_scatters_along_normal_plus_draw() {
    let l = Lambertian::new(Vec3::new(700_000, 600_000, 500_000));
    let rec = record(Vec3::new(0, 0, SCALE), true);
    let (att, ray) = l.scatter_with(&rec, Vec3::new(SCALE, 0, 0));
    assert_eq!(att, Vec3::new(700_000, 600_000, 500_000));
    assert_eq!(ray.origin, Vec3::new(0, 0, 0));
    assert_eq!(ray.dir, Vec3::new(SCALE, 0, SCALE));
}

#[test]
fn lambertian_falls_back_to_normal_on_cancellation() {
    // The random unit vector exactly cancels the normal: the direction
    // falls back to the bare normal instead of degenerating to zero.
    let l = Lambertian::new(Vec3::new(700_000, 600_000, 500_000));
    let rec = record(Vec3::new(0, 0, SCALE), true);
    let (_, ray) = l.scatter_with(&rec, Vec3::new(0, 0, -SCALE));
    assert_eq!(ray.dir, Vec3::new(0, 0, SCALE));
}

#[test]
fn metal_reflects_about_the_normal() {
    let m = Metal::new(Vec3::new(800_000, 800_000, 800_000), 0);
    let rec = record(Vec3::new(0, SCALE, 0), true);
    let ray = Ray::new(Vec3::new(0, SCALE, 0), Vec3::new(SCALE, -SCALE, 0));
    let (att, out) = m.scatter_with(&ray, &rec, Vec3::new(0, 0, 0));
    assert_eq!(att, Vec3::new(800_000, 800_000, 800_000));
    let out = out.expect("reflection points away from the surface");
    assert_eq!(out.dir, Vec3::new(SCALE, SCALE, 0));
}

#[test]
fn metal_absorbs_when_reflection_points_inward() {
    let m = Metal::new(Vec3::new(800_000, 800_000, 800_000), 0);
    let rec = record(Vec3::new(0, 0, SCALE), true);
    let ray = Ray::new(Vec3::new(0, 0, 0), Vec3::new(0, 0, SCALE));
    let (_, out) = m.scatter_with(&ray, &rec, Vec3::new(0, 0, 0));
    assert!(out.is_none());
}

#[test]
fn schlick_reflectance_at_normal_incidence_is_r0() {
    // cosine = 1 and eta = 1.5: r0 = ((1 - 1.5) / (1 + 1.5))^2 = 0.04.
    assert_eq!(Dielectric::reflectance(SCALE, 1_500_000), 40_000);
}

#[test]
fn total_internal_reflection_always_reflects() {
    // Inside glass (eta = 1.5) at grazing incidence: ratio * sin_theta
    // exceeds one, so every toss reflects and none refracts.
    let d = Dielectric::new(1_500_000);
    let rec = record(Vec3::new(0, 0, SCALE), false);
    let ray = Ray::new(Vec3::new(0, 0, 0), Vec3::new(SCALE, 0, -1_000));
    let reflected = Vec3::new(SCALE, 0, 1_000);
    for toss in [0, 1, 40_000, 500_000, 999_999] {
        let (att, out) = d.scatter_with(&ray, &rec, toss);
        assert_eq!(att, Vec3::new(SCALE, SCALE, SCALE));
        assert_eq!(out.dir, reflected);
    }
}

#[test]
fn dielectric_refracts_straight_through_at_normal_incidence() {
    // Head-on from outside, reflectance 0.04: a toss above it refracts,
    // and at normal incidence the ray passes straight through.
    let d = Dielectric::new(1_500_000);
    let rec = record(Vec3::new(0, 0, SCALE), true);
    let ray = Ray::new(Vec3::new(0, 0, 0), Vec3::new(0, 0, -SCALE));
    let (_, out) = d.scatter_with(&ray, &rec, 999_999);
    assert_eq!(out.dir, Vec3::new(0, 0, -SCALE));
}

#[test]
fn dielectric_reflects_on_a_winning_toss() {
    let d = Dielectric::new(1_500_000);
    let rec = record(Vec3::new(0, 0, SCALE), true);
    let ray = Ray::new(Vec3::new(0, 0, 0), Vec3::new(0, 0, -SCALE));
    // Reflectance at normal incidence is 0.04; a toss below it reflects.
    let (_, out) = d.scatter_with(&ray, &rec, 10_000);
    assert_eq!(out.dir, Vec3::new(0, 0, SCALE));
}
