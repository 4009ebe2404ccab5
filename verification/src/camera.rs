//! The camera: viewport construction from field-of-view / look-from /
//! look-at / focus parameters, per-pixel ray generation with antialiasing
//! jitter and defocus-disk sampling, and the recursive shading loop that
//! folds attenuations against the sky gradient.
//!
//! `build` mirrors `build_spec` exactly; a configuration whose derived
//! geometry escapes the representable camera ranges collapses to the
//! degenerate default camera, and that guard is part of the specification.
//! `ray_color` is proved to return black once the bounce budget is spent
//! and the exact sky gradient on a miss.

use vstd::prelude::*;
use vstd::math::abs;
use crate::fixed::{SCALE, fmul, fdiv, tdiv, fx_mul, fx_div, div_int};
use crate::fixed::{lemma_fmul_bound, lemma_tdiv_bound};
use crate::vec3::{Vec3, Color, bounded3, zero3, add3, sub3, neg3, scale3, divs3, mulv3, dot3,
    cross3, unit3, lemma_scale3_bound, lemma_divs3_bound, lemma_cross3_bound};
use crate::ray::Ray;
use crate::interval::Interval;
use crate::hittable::{HittableList, HitRectord, list_wf, list_hit_post, ray_wf,
    TRACE_DIR_MIN};
use crate::material::{white3, scatter_possible};
use crate::util::sample_square;
use crate::ppm;

verus! {

/// Half of one whole unit.
pub const HALF: i64 = 32768;

/// Largest image dimension accepted.
pub const DIM_MAX: u32 = 0x4000;

/// Cap on camera positions and defocus-disk basis vectors.
pub const CAM_POS_MAX: i64 = 0x20_0000;

/// Budget for a full row or column of per-pixel steps: a step vector's
/// components, times the image dimension, stay within this many raw units.
pub const SPAN_MAX: i64 = 0x40_0000;

/// Largest sample count per pixel.
pub const SPP_MAX: i32 = 0x1_0000;

/// Largest bounce budget.
pub const DEPTH_MAX: i32 = 0x100;

/// The self-intersection epsilon: hits closer than this along the ray are
/// ignored, preventing shadow acne.
pub const SHADE_EPS: i64 = 65;

/// The far end of the search interval.
pub const SHADE_FAR: i64 = 0x4000_0000;

#[derive(Clone, Copy, Debug)]
pub struct Camera {
    pub image_width: u32,
    pub image_height: u32,
    pub center: Vec3,
    pub image_center: Vec3,
    pub pixel_delta_u: Vec3,
    pub pixel_delta_v: Vec3,
    pub samples_per_pixel: i32,
    pub maximum_depth: i32,
    pub defocus_angle: i64,
    pub defocus_disk_u: Vec3,
    pub defocus_disk_v: Vec3,
}

/// The ranges every camera produced by `build` satisfies; ray generation
/// and shading rely on them.
pub open spec fn camera_wf(c: Camera) -> bool {
    1 <= c.image_width <= DIM_MAX
        && 1 <= c.image_height <= DIM_MAX
        && bounded3(c.center, CAM_POS_MAX as int)
        && bounded3(c.image_center, CAM_POS_MAX as int)
        && bounded3(c.pixel_delta_u, (SPAN_MAX as int) / (c.image_width as int))
        && bounded3(c.pixel_delta_v, (SPAN_MAX as int) / (c.image_height as int))
        && 1 <= c.samples_per_pixel <= SPP_MAX
        && 0 <= c.maximum_depth <= DEPTH_MAX
        && bounded3(c.defocus_disk_u, CAM_POS_MAX as int)
        && bounded3(c.defocus_disk_v, CAM_POS_MAX as int)
}

/// Truncated Maclaurin series for the sine of a fixed-point radian value.
pub open spec fn sin_poly(x: int) -> int {
    let x2 = fmul(x, x);
    let x3 = fmul(x2, x);
    let x5 = fmul(x3, x2);
    let x7 = fmul(x5, x2);
    x - tdiv(x3, 6) + tdiv(x5, 120) - tdiv(x7, 5040)
}

/// Truncated Maclaurin series for the cosine of a fixed-point radian value.
pub open spec fn cos_poly(x: int) -> int {
    let x2 = fmul(x, x);
    let x4 = fmul(x2, x2);
    let x6 = fmul(x4, x2);
    let x8 = fmul(x6, x2);
    SCALE - tdiv(x2, 2) + tdiv(x4, 24) - tdiv(x6, 720) + tdiv(x8, 40320)
}

/// The tangent of half the given fixed-point angle in degrees, as the
/// quotient of the two series, clamped into `[0, 16]` whole units.
pub open spec fn tan_half_deg_spec(deg: int) -> int {
    let x = tdiv(deg * 205887, 23592960);
    let s = sin_poly(x);
    let c0 = cos_poly(x);
    let c = if c0 < 1 {
        1
    } else {
        c0
    };
    let t = fdiv(s, c);
    if t > 16 * SCALE {
        16 * SCALE
    } else if t < 0 {
        0
    } else {
        t
    }
}

/// Compute the tangent of half the given angle; exactly
/// `tan_half_deg_spec`.
pub fn tan_half_deg(deg: i64) -> (r: i64)
    requires
        0 <= deg <= 0x100_0000,
    ensures
        r == tan_half_deg_spec(deg as int),
        0 <= r <= 16 * SCALE,
{
    proof {
        lemma_tdiv_bound((deg as int) * 205887, 23592960, 0x8_0000_0000_0000);
        assert(abs((deg as int) * 205887) <= 0x8_0000_0000_0000) by (nonlinear_arith)
            requires 0 <= deg <= 0x100_0000;
    }
    let x = div_int(deg * 205887, 23592960);
    proof {
        lemma_fmul_bound(x as int, x as int, 0x4_0000, 0x4_0000);
    }
    let x2 = fx_mul(x, x);
    proof {
        lemma_fmul_bound(x2 as int, x as int, 0x10_0000, 0x4_0000);
        lemma_fmul_bound(x2 as int, x2 as int, 0x10_0000, 0x10_0000);
    }
    let x3 = fx_mul(x2, x);
    let x4 = fx_mul(x2, x2);
    proof {
        lemma_fmul_bound(x3 as int, x2 as int, 0x40_0000, 0x10_0000);
        lemma_fmul_bound(x4 as int, x2 as int, 0x100_0000, 0x10_0000);
    }
    let x5 = fx_mul(x3, x2);
    let x6 = fx_mul(x4, x2);
    proof {
        lemma_fmul_bound(x5 as int, x2 as int, 0x400_0000, 0x10_0000);
        lemma_fmul_bound(x6 as int, x2 as int, 0x1000_0000, 0x10_0000);
        lemma_tdiv_bound(x3 as int, 6, 0x40_0000);
        lemma_tdiv_bound(x5 as int, 120, 0x400_0000);
    }
    let x7 = fx_mul(x5, x2);
    let x8 = fx_mul(x6, x2);
    proof {
        lemma_tdiv_bound(x7 as int, 5040, 0x4000_0000);
        lemma_tdiv_bound(x2 as int, 2, 0x10_0000);
        lemma_tdiv_bound(x4 as int, 24, 0x100_0000);
        lemma_tdiv_bound(x6 as int, 720, 0x1000_0000);
        lemma_tdiv_bound(x8 as int, 40320, 0x1_0000_0000);
    }
    let s = x - div_int(x3, 6) + div_int(x5, 120) - div_int(x7, 5040);
    let c0 = SCALE - div_int(x2, 2) + div_int(x4, 24) - div_int(x6, 720) + div_int(x8, 40320);
    let c = if c0 < 1 {
        1
    } else {
        c0
    };
    let t = fx_div(s, c);
    if t > 16 * SCALE {
        16 * SCALE
    } else if t < 0 {
        0
    } else {
        t
    }
}

/// Assembling a scattering bounce into `shade_post`: a nearest hit, a
/// possible scattering of it, and a possible trace of the scattered ray
/// make the attenuated product a possible trace of the incoming ray.
#[verifier::rlimit(100)]
#[verifier::spinoff_prover]
proof fn lemma_shade_post_scatter(cam: Camera, world: HittableList, ray: Ray, depth: int,
    rec: HitRectord, sc: Ray, att: Color, b: Color, c: Color)
    requires
        depth < cam.maximum_depth,
        dot3(ray.dir, ray.dir) >= TRACE_DIR_MIN,
        list_hit_post(world, ray, shade_interval(), Some(rec)),
        scatter_possible(rec.material, ray, rec, Some((sc, att))),
        shade_post(cam, world, sc, depth + 1, b),
        c == mulv3(att, b),
        bounded3(c, 4 * SCALE),
    ensures
        shade_post(cam, world, ray, depth, c),
{
    reveal_with_fuel(shade_post, 1);
    lemma_hit_refutes_miss(world, ray, rec);
    assert(exists|sc2: Ray, att2: Color, b2: Color|
        #[trigger] scatter_possible(rec.material, ray, rec, Some((sc2, att2)))
        && shade_post(cam, world, sc2, depth + 1, b2)
        && c == #[trigger] mulv3(att2, b2));
}

/// An absorbed hit shades to black.
proof fn lemma_shade_post_absorbed(cam: Camera, world: HittableList, ray: Ray, depth: int,
    rec: HitRectord)
    requires
        depth < cam.maximum_depth,
        dot3(ray.dir, ray.dir) >= TRACE_DIR_MIN,
        list_hit_post(world, ray, shade_interval(), Some(rec)),
        scatter_possible(rec.material, ray, rec, None::<(Ray, Color)>),
    ensures
        shade_post(cam, world, ray, depth, zero3()),
{
    reveal_with_fuel(shade_post, 1);
    lemma_hit_refutes_miss(world, ray, rec);
}

/// A member that reports a hit refutes the all-miss characterization.
proof fn lemma_hit_refutes_miss(world: HittableList, ray: Ray, rec: HitRectord)
    requires
        list_hit_post(world, ray, shade_interval(), Some(rec)),
    ensures
        !list_hit_post(world, ray, shade_interval(), None::<HitRectord>),
{
    let i = choose|i: int| 0 <= i < world.objects.len()
        && crate::hittable::hittable_hit_spec(#[trigger] world.objects[i], ray,
            shade_interval()) == Some(rec);
    if list_hit_post(world, ray, shade_interval(), None::<HitRectord>) {
        assert(crate::hittable::hittable_hit_spec(world.objects[i], ray,
            shade_interval()) is None);
    }
}

/// The degenerate fallback: sampling parameters are kept, the geometry
/// collapses to the origin.
pub open spec fn default_camera(image_width: u32, image_height: u32, samples_per_pixel: i32,
    maximum_depth: i32, defocus_angle: i64) -> Camera {
    (Camera {
        image_width,
        image_height,
        center: zero3(),
        image_center: zero3(),
        pixel_delta_u: zero3(),
        pixel_delta_v: zero3(),
        samples_per_pixel,
        maximum_depth,
        defocus_angle,
        defocus_disk_u: zero3(),
        defocus_disk_v: zero3(),
    })
}

/// The camera the viewport formulas produce, before any range guard:
/// orthonormal-by-construction basis from the view direction, viewport
/// sized by the field of view and the focus distance, per-pixel steps,
/// the first pixel's sample center, and the defocus-disk basis.
pub open spec fn build_candidate(image_width: u32, image_height: u32, vfov: int,
    look_from: Vec3, look_at: Vec3, samples_per_pixel: i32, maximum_depth: i32,
    defocus_angle: int, focus_dist: int) -> Camera {
    let up = (Vec3 { x: 0, y: SCALE, z: 0 });
    let h = tan_half_deg_spec(vfov);
    let vh = 2 * fmul(h, focus_dist);
    let ratio = fdiv((image_width as int) * (SCALE as int), (image_height as int) * (SCALE as int));
    let vw = fmul(vh, ratio);
    let w = unit3(sub3(look_from, look_at));
    let u = unit3(cross3(up, w));
    let v = cross3(w, u);
    let viewport_u = scale3(u, vw);
    let viewport_v = scale3(neg3(v), vh);
    let pdu = divs3(viewport_u, (image_width as int) * (SCALE as int));
    let pdv = divs3(viewport_v, (image_height as int) * (SCALE as int));
    let upper_left = sub3(
        sub3(sub3(look_from, scale3(w, focus_dist)), divs3(viewport_u, 2 * SCALE)),
        divs3(viewport_v, 2 * SCALE));
    let image_center = add3(upper_left, scale3(add3(pdu, pdv), HALF as int));
    let dr = fmul(focus_dist, tan_half_deg_spec(defocus_angle));
    let ddu = scale3(u, dr);
    let ddv = scale3(v, dr);
    (Camera {
        image_width,
        image_height,
        center: look_from,
        image_center,
        pixel_delta_u: pdu,
        pixel_delta_v: pdv,
        samples_per_pixel,
        maximum_depth,
        defocus_angle: defocus_angle as i64,
        defocus_disk_u: ddu,
        defocus_disk_v: ddv,
    })
}

/// The non-degeneracy condition of a camera configuration: the derived
/// viewport fits the representable range and every derived field of the
/// candidate lies within the camera ranges. On such a configuration
/// `build` returns the candidate's geometry unchanged; otherwise it
/// collapses to the default camera.
pub open spec fn build_ok(image_width: u32, image_height: u32, vfov: int, look_from: Vec3,
    look_at: Vec3, samples_per_pixel: i32, maximum_depth: i32, defocus_angle: int,
    focus_dist: int) -> bool {
    let h = tan_half_deg_spec(vfov);
    let vh = 2 * fmul(h, focus_dist);
    let ratio = fdiv((image_width as int) * (SCALE as int), (image_height as int) * (SCALE as int));
    let vw = fmul(vh, ratio);
    0 <= vh <= 0x1000_0000 && 0 <= vw <= 0x1000_0000
        && camera_wf(build_candidate(image_width, image_height, vfov, look_from, look_at,
            samples_per_pixel, maximum_depth, defocus_angle, focus_dist))
}

/// The exact semantics of `Camera::build`: the candidate camera when the
/// configuration is non-degenerate, the default camera otherwise
/// (`lemma_build_cases` states the case split over `build_ok`).
pub open spec fn build_spec(image_width: u32, image_height: u32, vfov: int, look_from: Vec3,
    look_at: Vec3, samples_per_pixel: i32, maximum_depth: i32, defocus_angle: int,
    focus_dist: int) -> Camera {
    let h = tan_half_deg_spec(vfov);
    let vh = 2 * fmul(h, focus_dist);
    let ratio = fdiv((image_width as int) * (SCALE as int), (image_height as int) * (SCALE as int));
    let vw = fmul(vh, ratio);
    let cand = build_candidate(image_width, image_height, vfov, look_from, look_at,
        samples_per_pixel, maximum_depth, defocus_angle, focus_dist);
    if 0 <= vh <= 0x1000_0000 && 0 <= vw <= 0x1000_0000 && camera_wf(cand) {
        cand
    } else {
        default_camera(image_width, image_height, samples_per_pixel, maximum_depth,
            defocus_angle as i64)
    }
}

/// The case split of `build_spec`: a non-degenerate configuration keeps
/// the derived geometry (in particular the camera sits at `look_from`);
/// a degenerate one collapses to the default camera.
pub proof fn lemma_build_cases(image_width: u32, image_height: u32, vfov: int,
    look_from: Vec3, look_at: Vec3, samples_per_pixel: i32, maximum_depth: i32,
    defocus_angle: int, focus_dist: int)
    ensures
        build_ok(image_width, image_height, vfov, look_from, look_at, samples_per_pixel,
            maximum_depth, defocus_angle, focus_dist)
            ==> build_spec(image_width, image_height, vfov, look_from, look_at,
                samples_per_pixel, maximum_depth, defocus_angle, focus_dist)
                == build_candidate(image_width, image_height, vfov, look_from, look_at,
                    samples_per_pixel, maximum_depth, defocus_angle, focus_dist)
            && build_spec(image_width, image_height, vfov, look_from, look_at,
                samples_per_pixel, maximum_depth, defocus_angle, focus_dist).center
                == look_from,
        !build_ok(image_width, image_height, vfov, look_from, look_at, samples_per_pixel,
            maximum_depth, defocus_angle, focus_dist)
            ==> build_spec(image_width, image_height, vfov, look_from, look_at,
                samples_per_pixel, maximum_depth, defocus_angle, focus_dist)
                == default_camera(image_width, image_height, samples_per_pixel,
                    maximum_depth, defocus_angle as i64),
{
}

/// The sky: a vertical gradient from white to light blue, driven by the
/// normalized ray direction's height.
pub open spec fn background3(r: Ray) -> Color {
    let unit_dir = unit3(r.dir);
    let a = fmul(HALF as int, unit_dir.y + SCALE);
    add3(scale3(white3(), SCALE - a), scale3(sky3(), a))
}

/// The sky's far color.
pub open spec fn sky3() -> Color {
    (Vec3 { x: HALF, y: 45875, z: SCALE })
}

/// Evaluate the background gradient; exactly `background3`.
pub fn background_color(ray: &Ray) -> (c: Color)
    requires
        ray_wf(*ray),
    ensures
        c == background3(*ray),
        bounded3(c, 4 * SCALE),
{
    let unit_dir = ray.dir.unit();
    let a = fx_mul(HALF, unit_dir.y + SCALE);
    proof {
        lemma_fmul_bound(HALF as int, unit_dir.y + SCALE, HALF as int, 3 * SCALE);
        lemma_scale3_bound(white3(), SCALE - a, SCALE as int, 2 * SCALE);
        lemma_scale3_bound(sky3(), a as int, SCALE as int, 2 * SCALE);
    }
    let white = Vec3 { x: SCALE, y: SCALE, z: SCALE };
    let sky = Vec3 { x: HALF, y: 45875, z: SCALE };
    white.mul(SCALE - a).add(&sky.mul(a))
}

/// Where sample coordinates `(su, sv)` land on the viewport: the first
/// pixel's center advanced by the per-pixel steps.
pub open spec fn pixel_sample_spec(c: Camera, su: int, sv: int) -> Vec3 {
    add3(add3(c.image_center, scale3(c.pixel_delta_u, su)), scale3(c.pixel_delta_v, sv))
}

/// A depth-of-field ray origin: the camera center displaced along the
/// defocus-disk basis by a point `(px, py)` of the unit disk.
pub open spec fn disk_origin_spec(c: Camera, px: int, py: int) -> Vec3 {
    add3(add3(c.center, scale3(c.defocus_disk_u, px)), scale3(c.defocus_disk_v, py))
}

/// The search interval used for every shading ray.
pub open spec fn shade_interval() -> Interval {
    (Interval { min: SHADE_EPS, max: SHADE_FAR })
}

/// What tracing a ray may produce, for every admissible sequence of
/// random draws: black once the bounce budget is spent; the sky gradient
/// for a direction below the precision floor or for a miss; and on a hit,
/// some member's nearest record together with a possible scattering of
/// it, shading either to black (the ray was absorbed) or to the
/// attenuation times a color that is itself a possible trace of the
/// scattered ray one bounce deeper.
#[verifier::opaque]
pub open spec fn shade_post(cam: Camera, world: HittableList, ray: Ray, depth: int, c: Color)
    -> bool
    decreases cam.maximum_depth - depth,
{
    bounded3(c, 4 * SCALE)
    && (depth >= cam.maximum_depth ==> c == zero3())
    && (depth < cam.maximum_depth ==> {
        if dot3(ray.dir, ray.dir) < TRACE_DIR_MIN {
            c == background3(ray)
        } else if list_hit_post(world, ray, shade_interval(), None::<HitRectord>) {
            c == background3(ray)
        } else {
            exists|rec: HitRectord|
                #[trigger] list_hit_post(world, ray, shade_interval(), Some(rec))
                && ((scatter_possible(rec.material, ray, rec, None::<(Ray, Color)>)
                        && c == zero3())
                    || (exists|sc: Ray, att: Color, b: Color|
                        #[trigger] scatter_possible(rec.material, ray, rec, Some((sc, att)))
                        && shade_post(cam, world, sc, depth + 1, b)
                        && c == #[trigger] mulv3(att, b)))
        }
    })
}

/// A ray the camera may emit for pixel `(i, j)`: shot from the camera
/// center (or, with an open aperture, from a point of the defocus disk)
/// toward a position jittered within the pixel's half-unit sample square.
pub open spec fn camera_ray_possible(cam: Camera, i: int, j: int, r: Ray) -> bool {
    ray_wf(r)
    && (cam.defocus_angle <= 0 ==> r.origin == cam.center)
    && (cam.defocus_angle > 0 ==> exists|px: int, py: int|
        -SCALE <= px <= SCALE && -SCALE <= py <= SCALE
        && r.origin == #[trigger] disk_origin_spec(cam, px, py))
    && (exists|su: int, sv: int|
        i * SCALE - HALF <= su <= i * SCALE + HALF
        && j * SCALE - HALF <= sv <= j * SCALE + HALF
        && r.dir == sub3(#[trigger] pixel_sample_spec(cam, su, sv), r.origin))
}

/// The sum of a sequence of colors, channelwise.
pub open spec fn color_sum_x(cs: Seq<Color>) -> int
    decreases cs.len(),
{
    if cs.len() == 0 { 0 } else { color_sum_x(cs.drop_last()) + cs.last().x }
}

pub open spec fn color_sum_y(cs: Seq<Color>) -> int
    decreases cs.len(),
{
    if cs.len() == 0 { 0 } else { color_sum_y(cs.drop_last()) + cs.last().y }
}

pub open spec fn color_sum_z(cs: Seq<Color>) -> int
    decreases cs.len(),
{
    if cs.len() == 0 { 0 } else { color_sum_z(cs.drop_last()) + cs.last().z }
}

/// Whether pixel value `p` is a possible render of pixel `(i, j)`: there
/// are `samples_per_pixel` camera rays for that pixel and as many possible
/// traces of them whose channelwise average, gamma-corrected and
/// quantized, is exactly `p`.
pub open spec fn pixel_from_samples(cam: Camera, world: HittableList, i: int, j: int,
    p: (u8, u8, u8)) -> bool {
    exists|rs: Seq<Ray>, cs: Seq<Color>|
        #![trigger rs.len(), cs.len()]
        rs.len() == cam.samples_per_pixel
        && cs.len() == cam.samples_per_pixel
        && (forall|k: int| 0 <= k < rs.len()
            ==> camera_ray_possible(cam, i, j, #[trigger] rs[k]))
        && (forall|k: int| 0 <= k < cs.len()
            ==> shade_post(cam, world, rs[k], 0, #[trigger] cs[k]))
        && p.0 == crate::ppm::quantize_spec(tdiv(color_sum_x(cs), cam.samples_per_pixel as int))
        && p.1 == crate::ppm::quantize_spec(tdiv(color_sum_y(cs), cam.samples_per_pixel as int))
        && p.2 == crate::ppm::quantize_spec(tdiv(color_sum_z(cs), cam.samples_per_pixel as int))
}

impl Camera {
    /// Derive the camera from its declarative parameters; exactly
    /// `build_spec`.
    #[verifier::rlimit(100)]
    #[verifier::spinoff_prover]
    pub fn build(image_width: u32, image_height: u32, vfov: i64, look_from: Vec3, look_at: Vec3,
        samples_per_pixel: i32, maximum_depth: i32, defocus_angle: i64, focus_dist: i64)
        -> (r: Camera)
        requires
            1 <= image_width <= DIM_MAX,
            1 <= image_height <= DIM_MAX,
            SCALE <= vfov <= 160 * SCALE,
            bounded3(look_from, CAM_POS_MAX as int),
            bounded3(look_at, CAM_POS_MAX as int),
            1 <= samples_per_pixel <= SPP_MAX,
            0 <= maximum_depth <= DEPTH_MAX,
            0 <= defocus_angle <= 90 * SCALE,
            1 <= focus_dist <= CAM_POS_MAX,
        ensures
            r == build_spec(image_width, image_height, vfov as int, look_from, look_at,
                samples_per_pixel, maximum_depth, defocus_angle as int, focus_dist as int),
            camera_wf(r),
    {
        let up = Vec3 { x: 0, y: SCALE, z: 0 };
        let h = tan_half_deg(vfov);
        proof {
            lemma_fmul_bound(h as int, focus_dist as int, 16 * SCALE, CAM_POS_MAX as int);
        }
        let vh = 2 * fx_mul(h, focus_dist);
        proof {
            assert(abs((image_width as int) * (SCALE as int)) <= 0x4000_0000)
                by (nonlinear_arith)
                requires 1 <= image_width <= 0x4000;
            assert(SCALE <= abs((image_height as int) * (SCALE as int)))
                by (nonlinear_arith)
                requires 1 <= image_height;
            crate::fixed::lemma_fdiv_bound((image_width as int) * (SCALE as int),
                (image_height as int) * (SCALE as int), 0x4000_0000);
        }
        let ratio = fx_div((image_width as i64) * SCALE, (image_height as i64) * SCALE);
        proof {
            lemma_fmul_bound(vh as int, ratio as int, 0x4000_0000, 0x4000_0000);
        }
        let vw = fx_mul(vh, ratio);
        if !(0 <= vh && vh <= 0x1000_0000 && 0 <= vw && vw <= 0x1000_0000) {
            return Camera {
                image_width,
                image_height,
                center: Vec3::zero(),
                image_center: Vec3::zero(),
                pixel_delta_u: Vec3::zero(),
                pixel_delta_v: Vec3::zero(),
                samples_per_pixel,
                maximum_depth,
                defocus_angle,
                defocus_disk_u: Vec3::zero(),
                defocus_disk_v: Vec3::zero(),
            };
        }
        let w = look_from.sub(&look_at).unit();
        let u = up.cross(&w).unit();
        proof {
            lemma_cross3_bound(unit3(sub3(look_from, look_at)), unit3(cross3(up, w)),
                2 * SCALE, 2 * SCALE);
        }
        let v = w.cross(&u);
        proof {
            lemma_scale3_bound(unit3(cross3(up, w)), vw as int, 2 * SCALE, 0x1000_0000);
            lemma_scale3_bound(neg3(cross3(w, u)), vh as int, 0x8_0000, 0x1000_0000);
        }
        let viewport_u = u.mul(vw);
        let viewport_v = v.neg().mul(vh);
        proof {
            assert((image_width as int) * (SCALE as int) >= SCALE) by (nonlinear_arith)
                requires 1 <= image_width;
            assert((image_height as int) * (SCALE as int) >= SCALE) by (nonlinear_arith)
                requires 1 <= image_height;
            lemma_divs3_bound(scale3(unit3(cross3(up, w)), vw as int),
                (image_width as int) * (SCALE as int), 0x2000_0000);
            lemma_divs3_bound(scale3(neg3(cross3(w, u)), vh as int),
                (image_height as int) * (SCALE as int), 0x8000_0000);
            lemma_divs3_bound(scale3(unit3(cross3(up, w)), vw as int), 2 * (SCALE as int),
                0x2000_0000);
            lemma_divs3_bound(scale3(neg3(cross3(w, u)), vh as int), 2 * (SCALE as int),
                0x8000_0000);
            lemma_scale3_bound(unit3(sub3(look_from, look_at)), focus_dist as int,
                2 * SCALE, CAM_POS_MAX as int);
        }
        let pdu = viewport_u.div((image_width as i64) * SCALE);
        let pdv = viewport_v.div((image_height as i64) * SCALE);
        let upper_left = look_from.sub(&w.mul(focus_dist)).sub(&viewport_u.div(2 * SCALE))
            .sub(&viewport_v.div(2 * SCALE));
        proof {
            lemma_scale3_bound(add3(divs3(scale3(unit3(cross3(up, w)), vw as int),
                (image_width as int) * (SCALE as int)),
                divs3(scale3(neg3(cross3(w, u)), vh as int),
                    (image_height as int) * (SCALE as int))), HALF as int,
                0xA000_0000, HALF as int);
        }
        let image_center = upper_left.add(&pdu.add(&pdv).mul(HALF));
        let ha = tan_half_deg(defocus_angle);
        proof {
            lemma_fmul_bound(focus_dist as int, ha as int, CAM_POS_MAX as int, 16 * SCALE);
            lemma_scale3_bound(unit3(cross3(up, w)), fmul(focus_dist as int, ha as int),
                2 * SCALE, 0x2000_0000);
            lemma_scale3_bound(cross3(w, u), fmul(focus_dist as int, ha as int),
                0x8_0000, 0x2000_0000);
        }
        let dr = fx_mul(focus_dist, ha);
        let ddu = u.mul(dr);
        let ddv = v.mul(dr);
        let cand = Camera {
            image_width,
            image_height,
            center: look_from,
            image_center,
            pixel_delta_u: pdu,
            pixel_delta_v: pdv,
            samples_per_pixel,
            maximum_depth,
            defocus_angle,
            defocus_disk_u: ddu,
            defocus_disk_v: ddv,
        };
        if Camera::check_ranges(&cand) {
            cand
        } else {
            Camera {
                image_width,
                image_height,
                center: Vec3::zero(),
                image_center: Vec3::zero(),
                pixel_delta_u: Vec3::zero(),
                pixel_delta_v: Vec3::zero(),
                samples_per_pixel,
                maximum_depth,
                defocus_angle,
                defocus_disk_u: Vec3::zero(),
                defocus_disk_v: Vec3::zero(),
            }
        }
    }

    /// Whether every derived field lies within the camera ranges.
    fn check_ranges(c: &Camera) -> (r: bool)
        requires
            1 <= c.image_width <= DIM_MAX,
            1 <= c.image_height <= DIM_MAX,
            1 <= c.samples_per_pixel <= SPP_MAX,
            0 <= c.maximum_depth <= DEPTH_MAX,
        ensures
            r == camera_wf(*c),
    {
        proof {
            vstd::arithmetic::div_mod::lemma_div_pos_is_pos(SPAN_MAX as int, c.image_width as int);
            vstd::arithmetic::div_mod::lemma_div_pos_is_pos(SPAN_MAX as int, c.image_height as int);
        }
        let du = div_int(SPAN_MAX, c.image_width as i64);
        let dv = div_int(SPAN_MAX, c.image_height as i64);
        in_range(c.center.x, CAM_POS_MAX) && in_range(c.center.y, CAM_POS_MAX)
            && in_range(c.center.z, CAM_POS_MAX)
            && in_range(c.image_center.x, CAM_POS_MAX) && in_range(c.image_center.y, CAM_POS_MAX)
            && in_range(c.image_center.z, CAM_POS_MAX)
            && in_range(c.pixel_delta_u.x, du) && in_range(c.pixel_delta_u.y, du)
            && in_range(c.pixel_delta_u.z, du)
            && in_range(c.pixel_delta_v.x, dv) && in_range(c.pixel_delta_v.y, dv)
            && in_range(c.pixel_delta_v.z, dv)
            && in_range(c.defocus_disk_u.x, CAM_POS_MAX) && in_range(c.defocus_disk_u.y, CAM_POS_MAX)
            && in_range(c.defocus_disk_u.z, CAM_POS_MAX)
            && in_range(c.defocus_disk_v.x, CAM_POS_MAX) && in_range(c.defocus_disk_v.y, CAM_POS_MAX)
            && in_range(c.defocus_disk_v.z, CAM_POS_MAX)
    }

    /// The jittered sample position for pixel `(i, j)`.
    fn pixel_sample_at(&self, su: i64, sv: i64) -> (r: Vec3)
        requires
            camera_wf(*self),
            abs(su as int) <= (self.image_width as int) * 65536,
            abs(sv as int) <= (self.image_height as int) * 65536,
        ensures
            bounded3(r, 0xA0_0000),
            r == pixel_sample_spec(*self, su as int, sv as int),
    {
        proof {
            lemma_step_bound(self.pixel_delta_u, su as int, self.image_width as int);
            lemma_step_bound(self.pixel_delta_v, sv as int, self.image_height as int);
        }
        self.image_center.add(&self.pixel_delta_u.mul(su)).add(&self.pixel_delta_v.mul(sv))
    }

    /// A ray origin on the defocus disk.
    fn defocus_disk_sample(&self) -> (r: Vec3)
        requires
            camera_wf(*self),
        ensures
            bounded3(r, 3 * (CAM_POS_MAX as int)),
            exists|px: int, py: int| -SCALE <= px <= SCALE && -SCALE <= py <= SCALE
                && r == disk_origin_spec(*self, px, py),
    {
        let p = Vec3::random_in_unit_disk();
        proof {
            lemma_scale3_bound(self.defocus_disk_u, p.x as int, CAM_POS_MAX as int,
                SCALE as int);
            lemma_scale3_bound(self.defocus_disk_v, p.y as int, CAM_POS_MAX as int,
                SCALE as int);
        }
        let r = self.center.add(&self.defocus_disk_u.mul(p.x)).add(&self.defocus_disk_v.mul(p.y));
        proof {
            assert(-SCALE <= p.x as int <= SCALE && -SCALE <= p.y as int <= SCALE
                && r == disk_origin_spec(*self, p.x as int, p.y as int));
        }
        r
    }

    /// The ray for sample `(i, j)`: the pixel position jittered inside its
    /// square, shot from the camera center or from a random point of the
    /// defocus disk.
    pub fn get_ray(&self, i: u32, j: u32) -> (r: Ray)
        requires
            camera_wf(*self),
            i < self.image_width,
            j < self.image_height,
        ensures
            camera_ray_possible(*self, i as int, j as int, r),
    {
        let offset = sample_square();
        proof {
            assert((i as int) * 65536 + 32768 <= (self.image_width as int) * 65536)
                by (nonlinear_arith)
                requires i < self.image_width;
            assert((j as int) * 65536 + 32768 <= (self.image_height as int) * 65536)
                by (nonlinear_arith)
                requires j < self.image_height;
        }
        let su = (i as i64) * SCALE + offset.x;
        let sv = (j as i64) * SCALE + offset.y;
        let pixel_sample = self.pixel_sample_at(su, sv);
        let origin = if self.defocus_angle <= 0 {
            self.center
        } else {
            self.defocus_disk_sample()
        };
        let dir = pixel_sample.sub(&origin);
        proof {
            assert(dir == sub3(pixel_sample_spec(*self, su as int, sv as int), origin));
        }
        Ray { origin, dir }
    }

    /// Follow a ray through the scene; the result is a possible trace in
    /// the sense of `shade_post`. Exhausting the bounce budget yields
    /// black; a direction below the precision floor, or a miss, yields
    /// exactly the sky gradient; a scattering hit attenuates the recursive
    /// color; an absorbing hit yields black.
    #[verifier::rlimit(100)]
    pub fn ray_color(&self, ray: &Ray, depth: i32, world: &HittableList) -> (c: Color)
        requires
            camera_wf(*self),
            list_wf(*world),
            ray_wf(*ray),
            0 <= depth,
        ensures
            shade_post(*self, *world, *ray, depth as int, c),
        decreases self.maximum_depth - depth,
    {
        if depth >= self.maximum_depth {
            proof {
                reveal_with_fuel(shade_post, 1);
            }
            return Vec3::zero();
        }
        let a = ray.dir.dot(&ray.dir);
        if a < TRACE_DIR_MIN {
            proof {
                reveal_with_fuel(shade_post, 1);
            }
            return background_color(ray);
        }
        let itv = Interval::new(SHADE_EPS, SHADE_FAR);
        match world.hit(ray, itv) {
            Some(rec) => {
                match rec.material.scatter(ray, &rec) {
                    Some((scattered, attenuation)) => {
                        let bounce = self.ray_color(&scattered, depth + 1, world);
                        proof {
                            reveal_with_fuel(shade_post, 1);
                            assert(bounded3(bounce, 4 * SCALE));
                            lemma_fmul_bound(attenuation.x as int, bounce.x as int,
                                SCALE as int, 4 * SCALE);
                            lemma_fmul_bound(attenuation.y as int, bounce.y as int,
                                SCALE as int, 4 * SCALE);
                            lemma_fmul_bound(attenuation.z as int, bounce.z as int,
                                SCALE as int, 4 * SCALE);
                        }
                        let c = attenuation.mul_vec(&bounce);
                        proof {
                            lemma_shade_post_scatter(*self, *world, *ray, depth as int,
                                rec, scattered, attenuation, bounce, c);
                        }
                        c
                    }
                    None => {
                        proof {
                            lemma_shade_post_absorbed(*self, *world, *ray, depth as int,
                                rec);
                        }
                        Vec3::zero()
                    }
                }
            }
            None => {
                let c = background_color(ray);
                proof {
                    reveal_with_fuel(shade_post, 1);
                }
                c
            }
        }
    }

    /// Render the scene: for every pixel, average `samples_per_pixel`
    /// traced samples, quantize, and emit the textual image. The output is
    /// the exact `ppm_spec` encoding of a width-by-height pixel buffer in
    /// which every pixel is, per `pixel_from_samples`, the quantized
    /// average of possible traces of that pixel's own camera rays.
    pub fn render(&self, world: &HittableList) -> (out: Vec<u8>)
        requires
            camera_wf(*self),
            list_wf(*world),
        ensures
            exists|pixels: Seq<(u8, u8, u8)>|
                pixels.len() == (self.image_width as int) * (self.image_height as int)
                && out@ == crate::ppm::ppm_spec(
                    self.image_width as nat, self.image_height as nat, pixels)
                && (forall|k: int| 0 <= k < pixels.len()
                    ==> pixel_from_samples(*self, *world,
                        k % (self.image_width as int), k / (self.image_width as int),
                        #[trigger] pixels[k])),
    {
        let w = self.image_width;
        let h = self.image_height;
        let spp = self.samples_per_pixel;
        let mut pixels: Vec<(u8, u8, u8)> = Vec::new();
        let mut j: u32 = 0;
        while j < h
            invariant
                camera_wf(*self),
                list_wf(*world),
                w == self.image_width,
                h == self.image_height,
                spp == self.samples_per_pixel,
                0 <= j <= h,
                pixels@.len() == (j as int) * (w as int),
                forall|k: int| 0 <= k < pixels@.len()
                    ==> pixel_from_samples(*self, *world,
                        k % (w as int), k / (w as int), #[trigger] pixels@[k]),
            decreases h - j,
        {
            let mut i: u32 = 0;
            while i < w
                invariant
                    camera_wf(*self),
                    list_wf(*world),
                    w == self.image_width,
                    h == self.image_height,
                    spp == self.samples_per_pixel,
                    0 <= i <= w,
                    j < h,
                    pixels@.len() == (j as int) * (w as int) + (i as int),
                    forall|k: int| 0 <= k < pixels@.len()
                        ==> pixel_from_samples(*self, *world,
                            k % (w as int), k / (w as int), #[trigger] pixels@[k]),
                decreases w - i,
            {
                let mut sum = Vec3::zero();
                let mut s: i32 = 0;
                let ghost mut rs: Seq<Ray> = Seq::empty();
                let ghost mut cs: Seq<Color> = Seq::empty();
                while s < spp
                    invariant
                        camera_wf(*self),
                        list_wf(*world),
                        w == self.image_width,
                        h == self.image_height,
                        spp == self.samples_per_pixel,
                        i < w,
                        j < h,
                        0 <= s <= spp,
                        rs.len() == s,
                        cs.len() == s,
                        forall|k: int| 0 <= k < rs.len()
                            ==> camera_ray_possible(*self, i as int, j as int,
                                #[trigger] rs[k]),
                        forall|k: int| 0 <= k < cs.len()
                            ==> shade_post(*self, *world, rs[k], 0, #[trigger] cs[k]),
                        sum.x == color_sum_x(cs),
                        sum.y == color_sum_y(cs),
                        sum.z == color_sum_z(cs),
                        bounded3(sum, (s as int) * 0x4_0000),
                    decreases spp - s,
                {
                    let ray = self.get_ray(i, j);
                    let c = self.ray_color(&ray, 0, world);
                    proof {
                        reveal_with_fuel(shade_post, 1);
                        assert(bounded3(c, 4 * SCALE));
                        assert((s as int) * 0x4_0000 <= 0x1_0000 * 0x4_0000);
                    }
                    sum = sum.add(&c);
                    s = s + 1;
                    proof {
                        let prev_rs = rs;
                        let prev_cs = cs;
                        rs = rs.push(ray);
                        cs = cs.push(c);
                        assert(rs.drop_last() =~= prev_rs);
                        assert(cs.drop_last() =~= prev_cs);
                        assert(rs.last() == ray && cs.last() == c);
                    }
                }
                let avg = Vec3 {
                    x: div_int(sum.x, spp as i64),
                    y: div_int(sum.y, spp as i64),
                    z: div_int(sum.z, spp as i64),
                };
                let p = ppm::quantize_color(&avg);
                proof {
                    assert(pixel_from_samples(*self, *world, i as int, j as int, p)) by {
                        assert(rs.len() == self.samples_per_pixel
                            && cs.len() == self.samples_per_pixel
                            && (forall|k: int| 0 <= k < rs.len()
                                ==> camera_ray_possible(*self, i as int, j as int,
                                    #[trigger] rs[k]))
                            && (forall|k: int| 0 <= k < cs.len()
                                ==> shade_post(*self, *world, rs[k], 0, #[trigger] cs[k]))
                            && p.0 == crate::ppm::quantize_spec(
                                tdiv(color_sum_x(cs), self.samples_per_pixel as int))
                            && p.1 == crate::ppm::quantize_spec(
                                tdiv(color_sum_y(cs), self.samples_per_pixel as int))
                            && p.2 == crate::ppm::quantize_spec(
                                tdiv(color_sum_z(cs), self.samples_per_pixel as int)));
                    }
                    let idx = (j as int) * (w as int) + (i as int);
                    vstd::arithmetic::div_mod::lemma_fundamental_div_mod_converse(
                        idx, w as int, j as int, i as int);
                }
                pixels.push(p);
                i = i + 1;
            }
            proof {
                assert((j as int) * (w as int) + (w as int) == (j as int + 1) * (w as int))
                    by (nonlinear_arith);
            }
            j = j + 1;
        }
        proof {
            assert((h as int) * (w as int) == (w as int) * (h as int)) by (nonlinear_arith);
        }
        let out = ppm::encode(w, h, &pixels);
        proof {
            assert(pixels@.len() == (self.image_width as int) * (self.image_height as int)
                && out@ == crate::ppm::ppm_spec(
                    self.image_width as nat, self.image_height as nat, pixels@)
                && (forall|k: int| 0 <= k < pixels@.len()
                    ==> pixel_from_samples(*self, *world,
                        k % (self.image_width as int), k / (self.image_width as int),
                        #[trigger] pixels@[k])));
        }
        out
    }
}

/// A per-pixel step scaled by any coordinate within the image spans at
/// most the full viewport budget.
proof fn lemma_step_bound(delta: Vec3, su: int, w: int)
    requires
        1 <= w <= 0x4000,
        bounded3(delta, (SPAN_MAX as int) / w),
        abs(su) <= w * 65536,
    ensures
        bounded3(scale3(delta, su), SPAN_MAX as int),
{
    lemma_step_component(delta.x as int, su, w);
    lemma_step_component(delta.y as int, su, w);
    lemma_step_component(delta.z as int, su, w);
}

proof fn lemma_step_component(d: int, su: int, w: int)
    requires
        1 <= w <= 0x4000,
        abs(d) <= (SPAN_MAX as int) / w,
        abs(su) <= w * 65536,
    ensures
        abs(fmul(d, su)) <= SPAN_MAX as int,
{
    let q = (SPAN_MAX as int) / w;
    vstd::arithmetic::div_mod::lemma_fundamental_div_mod(SPAN_MAX as int, w);
    vstd::arithmetic::div_mod::lemma_mod_bound(SPAN_MAX as int, w);
    assert(w * q <= SPAN_MAX);
    assert(abs(d * su) <= q * (w * 65536)) by (nonlinear_arith)
        requires
            abs(d) <= q,
            abs(su) <= w * 65536,
            0 <= q;
    assert(q * (w * 65536) == (w * q) * 65536) by (nonlinear_arith);
    assert((w * q) * 65536 <= 0x40_0000_0000) by (nonlinear_arith)
        requires w * q <= 0x40_0000;
    lemma_tdiv_bound(d * su, 65536, 0x40_0000_0000);
}

/// Whether a scalar lies within `[-m, m]`.
fn in_range(x: i64, m: i64) -> (r: bool)
    requires
        0 <= m,
    ensures
        r == (abs(x as int) <= m),
{
    -m <= x && x <= m
}

} // verus!
