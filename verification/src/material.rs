//! The scattering policies: diffuse (`Lambertian`), specular with roughness
//! (`Metal`) and refractive (`Dielectric`), dispatched through the closed
//! `Material` sum type.
//!
//! Each policy has a deterministic core (`scatter_with`) whose result is
//! pinned exactly by a spec function of the incoming ray, the hit record and
//! the random draw, plus a sampling entry point (`scatter`) that performs the
//! draw and is verified for every value the draw may take.

use vstd::prelude::*;
use vstd::math::abs;
use crate::fixed::{SCALE, fmul, fdiv, fsqrt, fx_mul, fx_div, fx_sqrt};
use crate::fixed::{lemma_fmul_bound, lemma_tdiv_abs};
use crate::vec3::{Vec3, Color, bounded3, zero3, add3, neg3, scale3, dot3, unit3, reflect3,
    refract3, lemma_dot3_bound, lemma_reflect3_bound, lemma_unit3_bound};
use crate::ray::Ray;
use crate::hittable::{HitRectord, hit_wf, RAY_MAX};
use crate::rng::random_fixed;

verus! {

/// Pure white: the fixed attenuation of a dielectric.
pub open spec fn white3() -> Color {
    (Vec3 { x: SCALE, y: SCALE, z: SCALE })
}

/// A color has every channel within one whole unit.
pub open spec fn color_wf(c: Color) -> bool {
    0 <= c.x <= SCALE && 0 <= c.y <= SCALE && 0 <= c.z <= SCALE
}

#[derive(Clone, Copy, Debug, PartialEq, Eq, Structural)]
pub struct Lambertian {
    pub albedo: Color,
}

#[derive(Clone, Copy, Debug, PartialEq, Eq, Structural)]
pub struct Metal {
    pub albedo: Color,
    pub fuzz: i64,
}

#[derive(Clone, Copy, Debug, PartialEq, Eq, Structural)]
pub struct Dielectric {
    pub refraction_factor: i64,
}

/// The closed set of scattering behaviors; adding a behavior means adding a
/// variant and a branch.
#[derive(Clone, Copy, Debug, PartialEq, Eq, Structural)]
pub enum Material {
    Lambertian(Lambertian),
    Metal(Metal),
    Dielectric(Dielectric),
}

pub open spec fn lambertian_wf(m: Lambertian) -> bool {
    color_wf(m.albedo)
}

pub open spec fn metal_wf(m: Metal) -> bool {
    color_wf(m.albedo) && 0 <= m.fuzz <= SCALE
}

/// Refraction factors span glass-like media; the bounds keep the reciprocal
/// ratio representable.
pub open spec fn dielectric_wf(m: Dielectric) -> bool {
    0x1000 <= m.refraction_factor <= 0x10_0000
}

pub open spec fn material_wf(m: Material) -> bool {
    match m {
        Material::Lambertian(l) => lambertian_wf(l),
        Material::Metal(t) => metal_wf(t),
        Material::Dielectric(d) => dielectric_wf(d),
    }
}

/// The diffuse bounce direction: hit normal plus a random unit vector,
/// falling back to the bare normal when the sum degenerates to zero.
pub open spec fn lambertian_dir(normal: Vec3, u: Vec3) -> Vec3 {
    let s = add3(normal, u);
    if s == zero3() {
        normal
    } else {
        s
    }
}

/// What Lambertian scattering produces for a given random unit vector.
pub open spec fn lambertian_scatter_spec(m: Lambertian, rec: HitRectord, u: Vec3)
    -> Option<(Ray, Color)> {
    Some((Ray { origin: rec.point, dir: lambertian_dir(rec.normal, u) }, m.albedo))
}

/// What Metal scattering produces for a given random unit vector: the
/// normalized mirror reflection fuzzed by `fuzz`, absorbed when the result
/// leaves the hemisphere of the normal.
pub open spec fn metal_scatter_spec(m: Metal, ray: Ray, rec: HitRectord, u: Vec3)
    -> Option<(Ray, Color)> {
    let dir = add3(unit3(reflect3(ray.dir, rec.normal)), scale3(u, m.fuzz as int));
    if dot3(dir, rec.normal) > 0 {
        Some((Ray { origin: rec.point, dir }, m.albedo))
    } else {
        None
    }
}

/// Schlick's reflectance approximation
/// `r0^2 + (1 - r0^2) (1 - cosine)^5` with `r0 = (1 - f) / (1 + f)`,
/// the fifth power formed by squaring.
pub open spec fn schlick(cosine: int, f: int) -> int {
    let r0 = fdiv(SCALE - f, SCALE + f);
    let r0sq = fmul(r0, r0);
    let p = SCALE - cosine;
    let p2 = fmul(p, p);
    let p4 = fmul(p2, p2);
    r0sq + fmul(SCALE - r0sq, fmul(p4, p))
}

/// What Dielectric scattering produces for a given uniform draw `q`: the
/// ray refracts unless total internal reflection or the Schlick coin picks
/// reflection; a refracted direction escaping the representable range is
/// guarded by reflecting instead. The attenuation is always pure white.
pub open spec fn dielectric_scatter_spec(d: Dielectric, ray: Ray, rec: HitRectord, q: int)
    -> Option<(Ray, Color)> {
    let ri = if rec.front_face { fdiv(SCALE as int, d.refraction_factor as int) }
        else { d.refraction_factor as int };
    let unit_dir = unit3(ray.dir);
    let cos0 = vstd::math::min(dot3(neg3(unit_dir), rec.normal), SCALE as int);
    let cos = vstd::math::max(cos0, -SCALE as int);
    let sin_sq = SCALE - fmul(cos, cos);
    let sin = fsqrt(if sin_sq < 0 { 0 } else { sin_sq });
    let reflected = reflect3(unit_dir, rec.normal);
    let dir = if fmul(ri, sin) > SCALE || schlick(cos, ri) > q {
        reflected
    } else {
        let rfr = refract3(unit_dir, rec.normal, ri);
        if bounded3(rfr, RAY_MAX as int) {
            rfr
        } else {
            reflected
        }
    };
    Some((Ray { origin: rec.point, dir }, white3()))
}

/// A value the unit-vector sampler can produce: bounded by two whole
/// units and of near-unit squared length.
pub open spec fn unit_draw(u: Vec3) -> bool {
    bounded3(u, 2 * SCALE) && abs(dot3(u, u) - SCALE) <= crate::vec3::UNIT_LEN_TOL
}

/// Whether `out` is a possible outcome of scattering `ray` at `rec` with
/// material `m`: some admissible random draw produces exactly it.
pub open spec fn scatter_possible(m: Material, ray: Ray, rec: HitRectord,
    out: Option<(Ray, Color)>) -> bool {
    match m {
        Material::Lambertian(l) => exists|u: Vec3| unit_draw(u)
            && out == #[trigger] lambertian_scatter_spec(l, rec, u),
        Material::Metal(t) => exists|u: Vec3| unit_draw(u)
            && out == #[trigger] metal_scatter_spec(t, ray, rec, u),
        Material::Dielectric(d) => exists|q: int| 0 <= q <= SCALE
            && out == #[trigger] dielectric_scatter_spec(d, ray, rec, q),
    }
}

impl Lambertian {
    pub fn new(albedo: Color) -> (r: Self)
        ensures
            r == (Lambertian { albedo }),
    {
        Lambertian { albedo }
    }

    /// Deterministic core: scatter given the sampled unit vector.
    pub fn scatter_with(&self, rec: &HitRectord, u: Vec3) -> (r: Option<(Ray, Color)>)
        requires
            hit_wf(*rec),
            bounded3(u, 2 * SCALE),
        ensures
            r == lambertian_scatter_spec(*self, *rec, u),
            (match r {
                Some((sc, att)) => sc.dir != zero3(),
                None => false,
            }),
    {
        let mut dir = rec.normal.add(&u);
        if dir.near_zero() {
            dir = rec.normal;
        }
        Some((Ray { origin: rec.point, dir }, self.albedo))
    }

    /// Scatter the incoming ray: always succeeds, attenuating by the albedo.
    pub fn scatter(&self, _ray_in: &Ray, rec: &HitRectord) -> (r: Option<(Ray, Color)>)
        requires
            hit_wf(*rec),
        ensures
            scatter_possible(Material::Lambertian(*self), *_ray_in, *rec, r),
            r is Some,
            (match r {
                Some((sc, att)) => att == self.albedo && sc.origin == rec.point
                    && bounded3(sc.dir, RAY_MAX as int) && sc.dir != zero3(),
                None => false,
            }),
    {
        let u = Vec3::random_unit();
        let r = self.scatter_with(rec, u);
        proof {
            assert(unit_draw(u) && r == lambertian_scatter_spec(*self, *rec, u));
        }
        r
    }
}

impl Metal {
    pub fn new(albedo: Color, fuzz: i64) -> (r: Self)
        ensures
            r == (Metal { albedo, fuzz }),
    {
        Metal { albedo, fuzz }
    }

    /// Deterministic core: scatter given the sampled unit vector.
    pub fn scatter_with(&self, ray_in: &Ray, rec: &HitRectord, u: Vec3)
        -> (r: Option<(Ray, Color)>)
        requires
            metal_wf(*self),
            hit_wf(*rec),
            bounded3(ray_in.dir, RAY_MAX as int),
            bounded3(u, 2 * SCALE),
        ensures
            r == metal_scatter_spec(*self, *ray_in, *rec, u),
    {
        proof {
            lemma_reflect3_bound(ray_in.dir, rec.normal, RAY_MAX as int);
            lemma_fmul_bound(u.x as int, self.fuzz as int, 2 * SCALE, SCALE as int);
            lemma_fmul_bound(u.y as int, self.fuzz as int, 2 * SCALE, SCALE as int);
            lemma_fmul_bound(u.z as int, self.fuzz as int, 2 * SCALE, SCALE as int);
        }
        let reflected = ray_in.dir.reflect(&rec.normal);
        let dir = reflected.unit().add(&u.mul(self.fuzz));
        if dir.dot(&rec.normal) > 0 {
            Some((Ray { origin: rec.point, dir }, self.albedo))
        } else {
            None
        }
    }

    /// Scatter the incoming ray; absorbed when fuzzing pushes the
    /// reflection below the surface.
    pub fn scatter(&self, ray_in: &Ray, rec: &HitRectord) -> (r: Option<(Ray, Color)>)
        requires
            metal_wf(*self),
            hit_wf(*rec),
            bounded3(ray_in.dir, RAY_MAX as int),
        ensures
            scatter_possible(Material::Metal(*self), *ray_in, *rec, r),
            (match r {
                Some((sc, att)) => att == self.albedo && sc.origin == rec.point
                    && bounded3(sc.dir, RAY_MAX as int) && dot3(sc.dir, rec.normal) > 0,
                None => true,
            }),
    {
        let u = Vec3::random_unit();
        let r = self.scatter_with(ray_in, rec, u);
        proof {
            assert(unit_draw(u) && r == metal_scatter_spec(*self, *ray_in, *rec, u));
            lemma_unit3_bound(reflect3(ray_in.dir, rec.normal));
            lemma_fmul_bound(u.x as int, self.fuzz as int, 2 * SCALE, SCALE as int);
            lemma_fmul_bound(u.y as int, self.fuzz as int, 2 * SCALE, SCALE as int);
            lemma_fmul_bound(u.z as int, self.fuzz as int, 2 * SCALE, SCALE as int);
        }
        r
    }
}

impl Dielectric {
    pub fn new(refraction_factor: i64) -> (r: Self)
        ensures
            r == (Dielectric { refraction_factor }),
    {
        Dielectric { refraction_factor }
    }

    /// Schlick's reflectance approximation; exactly the `schlick` spec.
    pub fn reflectance(cosine: i64, refraction_factor: i64) -> (r: i64)
        requires
            1 <= refraction_factor <= 0x1_0000_0000,
            -SCALE <= cosine <= SCALE,
        ensures
            r == schlick(cosine as int, refraction_factor as int),
    {
        proof {
            let num = ((SCALE - refraction_factor) as int) * (SCALE as int);
            let den = (SCALE + refraction_factor) as int;
            lemma_tdiv_abs(num, den);
            assert(abs(num) <= den * (SCALE as int)) by (nonlinear_arith)
                requires
                    1 <= refraction_factor <= 0x1_0000_0000,
                    den == (SCALE + refraction_factor) as int,
                    num == ((SCALE - refraction_factor) as int) * (SCALE as int);
            vstd::arithmetic::div_mod::lemma_div_is_ordered(
                abs(num) as int, den * (SCALE as int), den);
            vstd::arithmetic::div_mod::lemma_div_by_multiple(SCALE as int, den);
            assert(den * (SCALE as int) == (SCALE as int) * den) by (nonlinear_arith);
        }
        let r0 = fx_div(SCALE - refraction_factor, SCALE + refraction_factor);
        let r0sq = fx_mul(r0, r0);
        proof {
            lemma_fmul_bound(r0 as int, r0 as int, SCALE as int, SCALE as int);
        }
        let p = SCALE - cosine;
        let p2 = fx_mul(p, p);
        proof {
            lemma_fmul_bound(p as int, p as int, 2 * SCALE, 2 * SCALE);
        }
        let p4 = fx_mul(p2, p2);
        proof {
            lemma_fmul_bound(p2 as int, p2 as int, 4 * SCALE, 4 * SCALE);
        }
        let p5 = fx_mul(p4, p);
        proof {
            lemma_fmul_bound(p4 as int, p as int, 16 * SCALE, 2 * SCALE);
            lemma_fmul_bound((SCALE - r0sq) as int, p5 as int, 2 * SCALE, 32 * SCALE);
        }
        r0sq + fx_mul(SCALE - r0sq, p5)
    }

    /// Deterministic core: scatter given the uniform draw deciding the
    /// reflect/refract branch.
    pub fn scatter_with(&self, ray_in: &Ray, rec: &HitRectord, q: i64)
        -> (r: Option<(Ray, Color)>)
        requires
            dielectric_wf(*self),
            hit_wf(*rec),
            bounded3(ray_in.dir, RAY_MAX as int),
        ensures
            r == dielectric_scatter_spec(*self, *ray_in, *rec, q as int),
    {
        let ri: i64 = if rec.front_face {
            let v = fx_div(SCALE, self.refraction_factor);
            proof {
                lemma_tdiv_abs((SCALE as int) * (SCALE as int), self.refraction_factor as int);
                vstd::arithmetic::div_mod::lemma_div_is_ordered_by_denominator(
                    0x1_0000_0000, 0x1000, self.refraction_factor as int);
                vstd::arithmetic::div_mod::lemma_div_is_ordered_by_denominator(
                    0x1_0000_0000, self.refraction_factor as int, 0x10_0000);
            }
            v
        } else {
            self.refraction_factor
        };
        let unit_dir = ray_in.dir.unit();
        proof {
            lemma_dot3_bound(neg3(unit_dir), rec.normal, 2 * SCALE, 2 * SCALE);
        }
        let mc = unit_dir.neg().dot(&rec.normal);
        let cos0 = if mc < SCALE { mc } else { SCALE };
        let cos = if cos0 < -SCALE { -SCALE } else { cos0 };
        proof {
            assert(0 <= (cos as int) * (cos as int)) by (nonlinear_arith);
            crate::fixed::lemma_tdiv_nonneg((cos as int) * (cos as int), SCALE as int);
            lemma_fmul_bound(cos as int, cos as int, SCALE as int, SCALE as int);
        }
        let cc = fx_mul(cos, cos);
        let sin_sq = SCALE - cc;
        let sin = fx_sqrt(if sin_sq < 0 { 0 } else { sin_sq });
        proof {
            crate::fixed::lemma_sqrt_floor(
                ((if sin_sq < 0 { 0int } else { sin_sq as int }) * (SCALE as int)) as nat);
            assert(sin * sin <= (if sin_sq < 0 { 0int } else { sin_sq as int }) * (SCALE as int));
            assert(sin <= 0x1_0000) by (nonlinear_arith)
                requires
                    0 <= sin,
                    sin * sin <= 0x1_0000_0000;
            lemma_fmul_bound(ri as int, sin as int, 0x10_0000, 0x1_0000);
        }
        let rs = fx_mul(ri, sin);
        let cannot_refract = rs > SCALE;
        proof {
            lemma_reflect3_bound(unit_dir, rec.normal, 2 * SCALE);
        }
        let reflected = unit_dir.reflect(&rec.normal);
        let direction: Vec3 = if cannot_refract || Dielectric::reflectance(cos, ri) > q {
            reflected
        } else {
            let rfr = unit_dir.refract(&rec.normal, ri);
            if rfr.x <= RAY_MAX && rfr.x >= -RAY_MAX && rfr.y <= RAY_MAX && rfr.y >= -RAY_MAX
                && rfr.z <= RAY_MAX && rfr.z >= -RAY_MAX {
                rfr
            } else {
                reflected
            }
        };
        Some((Ray { origin: rec.point, dir: direction }, Vec3 { x: SCALE, y: SCALE, z: SCALE }))
    }

    /// Scatter the incoming ray: a dielectric never absorbs, and its
    /// attenuation is always pure white.
    pub fn scatter(&self, ray_in: &Ray, rec: &HitRectord) -> (r: Option<(Ray, Color)>)
        requires
            dielectric_wf(*self),
            hit_wf(*rec),
            bounded3(ray_in.dir, RAY_MAX as int),
        ensures
            scatter_possible(Material::Dielectric(*self), *ray_in, *rec, r),
            r is Some,
            (match r {
                Some((sc, att)) => att == white3() && sc.origin == rec.point
                    && bounded3(sc.dir, RAY_MAX as int),
                None => false,
            }),
    {
        let q = random_fixed(0, SCALE);
        let r = self.scatter_with(ray_in, rec, q);
        proof {
            assert(0 <= q <= SCALE
                && r == dielectric_scatter_spec(*self, *ray_in, *rec, q as int));
            lemma_reflect3_bound(unit3(ray_in.dir), rec.normal, 2 * SCALE);
        }
        r
    }
}

impl Material {
    /// Dispatch to the variant's scattering policy.
    pub fn scatter(&self, ray_in: &Ray, rec: &HitRectord) -> (r: Option<(Ray, Color)>)
        requires
            material_wf(*self),
            hit_wf(*rec),
            bounded3(ray_in.dir, RAY_MAX as int),
        ensures
            scatter_possible(*self, *ray_in, *rec, r),
            (match r {
                Some((sc, att)) => color_wf(att) && sc.origin == rec.point
                    && bounded3(sc.dir, RAY_MAX as int),
                None => true,
            }),
            (self matches Material::Lambertian(l) ==> r is Some
                && (match r {
                    Some((sc, att)) => att == l.albedo,
                    None => false,
                })),
            (self matches Material::Metal(m) ==> (match r {
                Some((sc, att)) => att == m.albedo && dot3(sc.dir, rec.normal) > 0,
                None => true,
            })),
            (self matches Material::Dielectric(d) ==> r is Some
                && (match r {
                    Some((sc, att)) => att == white3(),
                    None => false,
                })),
    {
        match self {
            Material::Lambertian(l) => l.scatter(ray_in, rec),
            Material::Metal(m) => m.scatter(ray_in, rec),
            Material::Dielectric(d) => d.scatter(ray_in, rec),
        }
    }
}

/// With zero fuzz a metal reflects deterministically: whatever unit vector
/// was drawn, the scattered direction is exactly the normalized ideal
/// mirror reflection.
pub proof fn lemma_metal_zero_fuzz(m: Metal, ray: Ray, rec: HitRectord, u: Vec3)
    requires
        m.fuzz == 0,
    ensures
        (match metal_scatter_spec(m, ray, rec, u) {
            Some((sc, att)) => sc.dir == unit3(reflect3(ray.dir, rec.normal)),
            None => true,
        }),
{
    let ur = unit3(reflect3(ray.dir, rec.normal));
    crate::fixed::lemma_tdiv_zero(SCALE as int);
    assert(scale3(u, 0) == zero3());
    assert(add3(ur, zero3()) == ur);
}

/// At normal incidence (`cosine` equal to one) Schlick's approximation
/// returns exactly `r0^2`.
pub proof fn lemma_schlick_normal_incidence(f: int)
    ensures
        schlick(SCALE as int, f)
            == fmul(fdiv(SCALE - f, SCALE + f), fdiv(SCALE - f, SCALE + f)),
{
    let r0 = fdiv(SCALE - f, SCALE + f);
    let r0sq = fmul(r0, r0);
    crate::fixed::lemma_tdiv_zero(SCALE as int);
    assert(fmul(0, 0) == 0);
    assert(fmul(SCALE - r0sq, 0) == 0);
}

} // verus!
