use raytracer::fixed::SCALE;
use raytracer::vec3::Vec3;
use raytracer::ray::Ray;
use raytracer::interval::Interval;
use raytracer::hittable::{Sphere, Hittable, HittableList};
use raytracer::material::{Material, Lambertian};

fn gray() -> Material {
    Material::Lambertian(Lambertian::new(Vec3::new(SCALE / 2, SCALE / 2, SCALE / 2)))
}

fn far_interval() -> Interval {
    Interval::new(65, 0x4000_0000)
}

#[test]
fn interval_operations() {
    let itv = Interval::new(-SCALE, SCALE);
    assert!(itv.contains(SCALE));
    assert!(itv.contains(-SCALE));
    assert!(!itv.surrounds(SCALE));
    assert!(!itv.surrounds(-SCALE));
    assert!(itv.surrounds(0));
    assert_eq!(itv.clamp(2 * SCALE), SCALE);
    assert_eq!(itv.clamp(-2 * SCALE), -SCALE);
    assert_eq!(itv.clamp(123), 123);
}

#[test]
fn ray_evaluation() {
    let r = Ray::new(Vec3::new(SCALE, 0, 0), Vec3::new(0, 0, -SCALE));
    assert_eq!(*r.origin(), Vec3::new(SCALE, 0, 0));
    assert_eq!(*r.dir(), Vec3::new(0, 0, -SCALE));
    assert_eq!(r.at(2 * SCALE), Vec3::new(SCALE, 0, -2 * SCALE));
}

// The smaller quadratic root is reported when the interval surrounds it.
#[test]
fn sphere_hit_smaller_root() {
    let s = Sphere::new(Vec3::new(0, 0, -3 * SCALE), SCALE, gray());
    let r = Ray::new(Vec3::new(0, 0, 0), Vec3::new(0, 0, -SCALE));
    let hit = s.hit(&r, far_interval()).unwrap();
    assert_eq!(hit.t, 2 * SCALE);
    assert_eq!(hit.point, Vec3::new(0, 0, -2 * SCALE));
    assert_eq!(hit.normal, Vec3::new(0, 0, SCALE));
    assert!(hit.front_face);
}

// When the interval excludes the smaller root, the larger one is reported.
#[test]
fn sphere_hit_larger_root() {
    let s = Sphere::new(Vec3::new(0, 0, -3 * SCALE), SCALE, gray());
    let r = Ray::new(Vec3::new(0, 0, 0), Vec3::new(0, 0, -SCALE));
    let hit = s.hit(&r, Interval::new(150000, 0x4000_0000)).unwrap();
    assert_eq!(hit.t, 4 * SCALE);
}

// From inside the sphere only the larger root lies ahead; the normal is
// flipped to face the ray.
#[test]
fn sphere_hit_from_inside() {
    let s = Sphere::new(Vec3::new(0, 0, -3 * SCALE), SCALE, gray());
    let r = Ray::new(Vec3::new(0, 0, -3 * SCALE), Vec3::new(0, 0, -SCALE));
    let hit = s.hit(&r, far_interval()).unwrap();
    assert_eq!(hit.t, SCALE);
    assert!(!hit.front_face);
    assert_eq!(hit.normal, Vec3::new(0, 0, SCALE));
}

// When neither root lies inside the interval there is no hit.
#[test]
fn sphere_hit_roots_outside_interval() {
    let s = Sphere::new(Vec3::new(0, 0, -3 * SCALE), SCALE, gray());
    let r = Ray::new(Vec3::new(0, 0, 0), Vec3::new(0, 0, -SCALE));
    assert!(s.hit(&r, Interval::new(65, SCALE)).is_none());
}

#[test]
fn sphere_miss_negative_discriminant() {
    let s = Sphere::new(Vec3::new(5 * SCALE, 0, -3 * SCALE), SCALE, gray());
    let r = Ray::new(Vec3::new(0, 0, 0), Vec3::new(0, 0, -SCALE));
    assert!(s.hit(&r, far_interval()).is_none());
}

// Every reported hit has a normal facing against the incoming ray.
#[test]
fn hit_normal_is_front_facing() {
    let s = Sphere::new(Vec3::new(0, 0, -3 * SCALE), SCALE, gray());
    let outside = Ray::new(Vec3::new(0, 0, 0), Vec3::new(0, 0, -SCALE));
    let inside = Ray::new(Vec3::new(0, 0, -3 * SCALE), Vec3::new(0, 0, -SCALE));
    for r in [outside, inside] {
        let hit = s.hit(&r, far_interval()).unwrap();
        assert!(r.dir().dot(&hit.normal) < 0);
    }
}

// The composite scene reports the same parameter as the nearest member's
// own intersection, in either registration order.
#[test]
fn list_reports_nearest_sphere() {
    let near = Sphere::new(Vec3::new(0, 0, -3 * SCALE), SCALE, gray());
    let far = Sphere::new(Vec3::new(0, 0, -6 * SCALE), SCALE, gray());
    let r = Ray::new(Vec3::new(0, 0, 0), Vec3::new(0, 0, -SCALE));
    let own = near.hit(&r, far_interval()).unwrap();

    let mut world = HittableList::new();
    world.add(Hittable::Sphere(far));
    world.add(Hittable::Sphere(near));
    let got = world.hit(&r, far_interval()).unwrap();
    assert_eq!(got.t, own.t);

    let mut world2 = HittableList::new();
    world2.add(Hittable::Sphere(near));
    world2.add(Hittable::Sphere(far));
    let got2 = world2.hit(&r, far_interval()).unwrap();
    assert_eq!(got2.t, own.t);
}

#[test]
fn list_reports_nothing_when_all_miss() {
    let a = Sphere::new(Vec3::new(0, 0, -3 * SCALE), SCALE, gray());
    let b = Sphere::new(Vec3::new(0, 0, -6 * SCALE), SCALE, gray());
    let away = Ray::new(Vec3::new(0, 0, 0), Vec3::new(0, 0, SCALE));
    let mut world = HittableList::new();
    world.add(Hittable::Sphere(a));
    world.add(Hittable::Sphere(b));
    assert!(world.hit(&away, far_interval()).is_none());
}

#[test]
fn empty_list_never_hits() {
    let world = HittableList::new();
    let r = Ray::new(Vec3::new(0, 0, 0), Vec3::new(0, 0, -SCALE));
    assert!(world.hit(&r, far_interval()).is_none());
}
