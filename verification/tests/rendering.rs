use raytracer::fixed::SCALE;
use raytracer::vec3::Vec3;
use raytracer::ray::Ray;
use raytracer::hittable::{Sphere, Hittable, HittableList};
use raytracer::material::{Material, Lambertian};
use raytracer::camera::{Camera, background_color, tan_half_deg};
use raytracer::ppm::{encode, quantize_channel, linear_to_gamma};
use raytracer::util::{UtilData, progress_line, sample_square, random_float, random_float_range};

fn parse_ppm(bytes: &[u8]) -> (u32, u32, Vec<(u8, u8, u8)>) {
    let text = String::from_utf8(bytes.to_vec()).unwrap();
    let mut tokens = text.split_whitespace();
    assert_eq!(tokens.next().unwrap(), "P3");
    let w: u32 = tokens.next().unwrap().parse().unwrap();
    let h: u32 = tokens.next().unwrap().parse().unwrap();
    assert_eq!(tokens.next().unwrap(), "255");
    let mut pixels = Vec::new();
    for _ in 0..(w * h) {
        let r: u8 = tokens.next().unwrap().parse().unwrap();
        let g: u8 = tokens.next().unwrap().parse().unwrap();
        let b: u8 = tokens.next().unwrap().parse().unwrap();
        pixels.push((r, g, b));
    }
    assert!(tokens.next().is_none());
    (w, h, pixels)
}

#[test]
fn ppm_encoding_is_exact() {
    let pixels = vec![(1u8, 2u8, 3u8), (255u8, 0u8, 10u8)];
    let out = encode(2, 1, &pixels);
    assert_eq!(out, b"P3\n2 1\n255\n1 2 3\n255 0 10\n".to_vec());
}

// Full-intensity channels decode back to 255 on every pixel, zero channels
// to 0: the quantization/format round trip.
#[test]
fn ppm_round_trip_white_and_black() {
    let w: u32 = 4;
    let h: u32 = 3;
    let white_value = quantize_channel(SCALE);
    assert_eq!(white_value, 255);
    let black_value = quantize_channel(0);
    assert_eq!(black_value, 0);

    let whites = vec![(white_value, white_value, white_value); (w * h) as usize];
    let (pw, ph, decoded) = parse_ppm(&encode(w, h, &whites));
    assert_eq!((pw, ph), (w, h));
    assert!(decoded.iter().all(|&p| p == (255, 255, 255)));

    let blacks = vec![(black_value, black_value, black_value); (w * h) as usize];
    let (_, _, decoded) = parse_ppm(&encode(w, h, &blacks));
    assert!(decoded.iter().all(|&p| p == (0, 0, 0)));
}

#[test]
fn quantization_clamps_and_scales() {
    // above full scale clamps to 255
    assert_eq!(quantize_channel(4 * SCALE), 255);
    // negative clamps to zero
    assert_eq!(quantize_channel(-SCALE), 0);
    // a quarter of full scale gamma-corrects to a half: 0.5 * 256 = 128
    assert_eq!(quantize_channel(SCALE / 4), 128);
    assert_eq!(linear_to_gamma(SCALE / 4), SCALE / 2);
    assert_eq!(linear_to_gamma(-5), 0);
}

// The bounce budget: at the maximum depth the traced color is black no
// matter what the scene holds.
#[test]
fn ray_color_at_depth_limit_is_black() {
    let mut world = HittableList::new();
    let mat = Material::Lambertian(Lambertian::new(Vec3::new(SCALE / 2, SCALE / 2, SCALE / 2)));
    world.add(Hittable::Sphere(Sphere::new(Vec3::new(0, 0, -SCALE), SCALE / 2, mat)));
    let camera = Camera::build(16, 16, 90 * SCALE, Vec3::new(0, 0, 0),
        Vec3::new(0, 0, -SCALE), 1, 5, 0, SCALE);
    let ray = Ray::new(Vec3::new(0, 0, 0), Vec3::new(0, 0, -SCALE));
    assert_eq!(camera.ray_color(&ray, 5, &world), Vec3::new(0, 0, 0));
    assert_eq!(camera.ray_color(&ray, 7, &world), Vec3::new(0, 0, 0));
}

// A ray whose direction sits below the precision floor cannot be traced
// against the scene; it shades as the sky.
#[test]
fn ray_color_below_direction_floor_is_sky() {
    let mut world = HittableList::new();
    let mat = Material::Lambertian(Lambertian::new(Vec3::new(SCALE / 2, SCALE / 2, SCALE / 2)));
    world.add(Hittable::Sphere(Sphere::new(Vec3::new(0, 0, -SCALE), SCALE / 2, mat)));
    let camera = Camera::build(16, 16, 90 * SCALE, Vec3::new(0, 0, 0),
        Vec3::new(0, 0, -SCALE), 1, 5, 0, SCALE);
    let tiny = Ray::new(Vec3::new(0, 0, 0), Vec3::new(0, 0, -1));
    assert_eq!(camera.ray_color(&tiny, 0, &world), background_color(&tiny));
}

// A miss returns the sky gradient, which is bluer above than below.
#[test]
fn background_gradient_depends_on_height() {
    let up = background_color(&Ray::new(Vec3::new(0, 0, 0), Vec3::new(0, SCALE, 0)));
    let down = background_color(&Ray::new(Vec3::new(0, 0, 0), Vec3::new(0, -SCALE, 0)));
    // looking straight down gives pure white
    assert_eq!(down, Vec3::new(SCALE, SCALE, SCALE));
    // looking straight up gives the sky color
    assert_eq!(up, Vec3::new(SCALE / 2, 45875, SCALE));
}

// End to end: one diffuse sphere straight ahead, one-sample one-bounce
// render. The center pixel is shadowed (non-background), the corners show
// the sky gradient.
#[test]
fn render_single_sphere_scene() {
    let mut world = HittableList::new();
    let mat = Material::Lambertian(Lambertian::new(Vec3::new(SCALE / 2, SCALE / 2, SCALE / 2)));
    world.add(Hittable::Sphere(Sphere::new(Vec3::new(0, 0, -SCALE), SCALE / 2, mat)));
    let camera = Camera::build(65, 65, 90 * SCALE, Vec3::new(0, 0, 0),
        Vec3::new(0, 0, -SCALE), 1, 1, 0, SCALE);
    let out = camera.render(&world);
    let (w, h, pixels) = parse_ppm(&out);
    assert_eq!((w, h), (65, 65));
    let center = pixels[(32 * 65 + 32) as usize];
    assert_eq!(center, (0, 0, 0));
    for corner in [pixels[0], pixels[64], pixels[(64 * 65) as usize], pixels[(64 * 65 + 64) as usize]] {
        assert_ne!(corner, (0, 0, 0));
        // the gradient never has more red than blue
        assert!(corner.2 >= corner.0);
    }
}

#[test]
fn tangent_approximation_tracks_the_real_tangent() {
    for (deg, expect) in [(60i64, 30f64), (90, 45.0), (20, 10.0), (120, 60.0)] {
        let t = tan_half_deg(deg * SCALE) as f64 / SCALE as f64;
        let real = expect.to_radians().tan();
        assert!((t - real).abs() < 0.01, "angle {} gave {} expected {}", deg, t, real);
    }
}

#[test]
fn progress_indicator_formats_exactly() {
    assert_eq!(progress_line(0, 4),
        b"\rProgress: [######-------------------]  25%".to_vec());
    assert_eq!(progress_line(3, 4),
        b"\rProgress: [#########################] 100%".to_vec());
    assert_eq!(progress_line(0, 1000),
        b"\rProgress: [-------------------------]   0%".to_vec());
}

#[test]
fn util_data_serializes_little_endian() {
    let data = UtilData { time: 0x0403_0201, pad0: 0, pad1: 0, pad2: 0 };
    let bytes = data.to_bytes();
    assert_eq!(&bytes[0..4], &[1, 2, 3, 4]);
    assert!(bytes[4..].iter().all(|&b| b == 0));
    let fresh = UtilData::new();
    assert_eq!((fresh.pad0, fresh.pad1, fresh.pad2), (0, 0, 0));
}

#[test]
fn random_helpers_respect_ranges() {
    let mut seen = std::collections::BTreeSet::new();
    for _ in 0..100 {
        let f = random_float();
        assert!((0..=SCALE).contains(&f));
        seen.insert(f);
        let g = random_float_range(-3, 7);
        assert!((-3..=7).contains(&g));
        let sq = sample_square();
        assert!(sq.x().abs() <= SCALE / 2);
        assert!(sq.y().abs() <= SCALE / 2);
        assert_eq!(sq.z(), 0);
    }
    // a hundred uniform draws from sixty-five thousand values collide with
    // a constant only if the generator is broken
    assert!(seen.len() > 1);
    assert_eq!(random_float_range(5, 5), 5);
}
