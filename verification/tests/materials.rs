use raytracer::fixed::{SCALE, fx_mul, fx_div};
use raytracer::vec3::Vec3;
use raytracer::ray::Ray;
use raytracer::hittable::HitRectord;
use raytracer::material::{Material, Lambertian, Metal, Dielectric};

fn record(material: Material) -> HitRectord {
    HitRectord {
        point: Vec3::new(0, 0, -2 * SCALE),
        normal: Vec3::new(0, 0, SCALE),
        t: 2 * SCALE,
        front_face: true,
        material,
    }
}

fn incoming() -> Ray {
    Ray::new(Vec3::new(0, 0, 0), Vec3::new(0, 0, -SCALE))
}

// Lambertian attenuation is exactly the albedo, and the scattered ray
// starts at the hit point.
#[test]
fn lambertian_attenuation_is_albedo() {
    let albedo = Vec3::new(13107, 26214, 52429);
    let lam = Lambertian::new(albedo);
    let rec = record(Material::Lambertian(lam));
    let (scattered, attenuation) = lam.scatter(&incoming(), &rec).unwrap();
    assert_eq!(attenuation, albedo);
    assert_eq!(scattered.origin, rec.point);
}

// A degenerate diffuse direction falls back to the bare normal.
#[test]
fn lambertian_near_zero_falls_back_to_normal() {
    let lam = Lambertian::new(Vec3::new(SCALE, SCALE, SCALE));
    let rec = record(Material::Lambertian(lam));
    let opposite = Vec3::new(0, 0, -SCALE);
    let (scattered, _) = lam.scatter_with(&rec, opposite).unwrap();
    assert_eq!(scattered.dir, rec.normal);
}

// Dielectric attenuation is always pure white.
#[test]
fn dielectric_attenuation_is_white() {
    let die = Dielectric::new(98304);
    let rec = record(Material::Dielectric(die));
    let (_, attenuation) = die.scatter(&incoming(), &rec).unwrap();
    assert_eq!(attenuation, Vec3::new(SCALE, SCALE, SCALE));
}

// With zero fuzz a metal reflects deterministically: the scattered
// direction is the normalized ideal reflection, whatever was drawn.
#[test]
fn metal_zero_fuzz_reflects_exactly() {
    let metal = Metal::new(Vec3::new(SCALE, SCALE, SCALE), 0);
    let rec = record(Material::Metal(metal));
    let ray = incoming();
    let ideal = ray.dir().reflect(&rec.normal).unit();
    for u in [Vec3::new(30000, -20000, 10000), Vec3::new(-65536, 65536, 1)] {
        let (scattered, attenuation) = metal.scatter_with(&ray, &rec, u).unwrap();
        assert_eq!(scattered.dir, ideal);
        assert_eq!(attenuation, Vec3::new(SCALE, SCALE, SCALE));
    }
    assert_eq!(ideal, Vec3::new(0, 0, SCALE));
}

// Fuzz can push the reflection below the hemisphere; the ray is absorbed.
#[test]
fn metal_absorbs_below_hemisphere() {
    let metal = Metal::new(Vec3::new(SCALE, SCALE, SCALE), SCALE);
    let rec = record(Material::Metal(metal));
    let below = Vec3::new(0, 0, -2 * SCALE);
    assert!(metal.scatter_with(&incoming(), &rec, below).is_none());
}

// At normal incidence Schlick's reflectance is exactly r0 squared.
#[test]
fn reflectance_normal_incidence_is_r0() {
    for f in [98304i64, 65536, 131072, 200000, 4096] {
        let r0 = fx_div(SCALE - f, SCALE + f);
        assert_eq!(Dielectric::reflectance(SCALE, f), fx_mul(r0, r0));
    }
    // glass: r0 = 0.2 squared is 0.04 of full scale
    assert_eq!(Dielectric::reflectance(SCALE, 98304), 2621);
}

// Reflectance grows toward grazing incidence.
#[test]
fn reflectance_grows_at_grazing() {
    let at_normal = Dielectric::reflectance(SCALE, 98304);
    let grazing = Dielectric::reflectance(0, 98304);
    assert!(grazing > at_normal);
    assert!(grazing <= SCALE);
}

// Head-on into glass with the draw above the reflectance: the ray passes
// straight through; with the draw below it, it reflects.
#[test]
fn dielectric_head_on_branches() {
    let die = Dielectric::new(98304);
    let rec = record(Material::Dielectric(die));
    let ray = incoming();
    let (through, _) = die.scatter_with(&ray, &rec, SCALE).unwrap();
    assert_eq!(through.dir, Vec3::new(0, 0, -SCALE));
    let (mirrored, _) = die.scatter_with(&ray, &rec, 0).unwrap();
    assert_eq!(mirrored.dir, Vec3::new(0, 0, SCALE));
}

// Beyond the critical angle from inside the medium, the ray reflects
// whatever the draw was: total internal reflection.
#[test]
fn dielectric_total_internal_reflection() {
    let die = Dielectric::new(98304);
    let rec = HitRectord {
        point: Vec3::new(0, 0, -2 * SCALE),
        normal: Vec3::new(0, 0, SCALE),
        t: 2 * SCALE,
        front_face: false,
        material: Material::Dielectric(die),
    };
    let ray = Ray::new(Vec3::new(0, 0, 0), Vec3::new(SCALE, 0, -SCALE));
    let expected = ray.dir().unit().reflect(&rec.normal);
    for q in [0i64, SCALE / 2, SCALE] {
        let (scattered, _) = die.scatter_with(&ray, &rec, q).unwrap();
        assert_eq!(scattered.dir, expected);
    }
    // the reflection indeed leaves the surface upward
    assert!(expected.z() > 0);
}

// The material dispatch forwards to the variant's policy.
#[test]
fn material_dispatch_matches_variants() {
    let albedo = Vec3::new(SCALE / 4, SCALE / 2, SCALE);
    let lam = Material::Lambertian(Lambertian::new(albedo));
    let rec = record(lam);
    let (_, attenuation) = lam.scatter(&incoming(), &rec).unwrap();
    assert_eq!(attenuation, albedo);

    let die = Material::Dielectric(Dielectric::new(98304));
    let rec2 = record(die);
    let (_, att2) = die.scatter(&incoming(), &rec2).unwrap();
    assert_eq!(att2, Vec3::new(SCALE, SCALE, SCALE));
}
