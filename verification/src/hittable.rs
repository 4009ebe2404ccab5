//! Intersectable geometry: the quadratic ray/sphere test and the
//! closest-so-far sweep over a composite scene.
//!
//! `sphere_hit_spec` is the exact mathematical account of `Sphere::hit`:
//! half-b quadratic, smaller root first, strict interval test, oriented
//! normal. `HittableList::hit` is proved to report exactly the nearest
//! per-sphere hit over the full search interval (and nothing when no member
//! hits), which is the nearest-wins invariant.

use vstd::prelude::*;
use vstd::math::abs;
use crate::fixed::{SCALE, fmul, fdiv, fsqrt, fx_mul, fx_div, fx_sqrt};
use crate::fixed::{lemma_fmul_bound, lemma_tdiv_abs, lemma_tdiv_mono};
use crate::vec3::{Vec3, bounded3, zero3, sub3, neg3, divs3, dot3, lemma_dot3_bound,
    lemma_dot3_self_nonneg, lemma_dot3_zero_vec};
use crate::vec3::UNIT_MAX;
use crate::ray::{Ray, ray_at};
use crate::interval::{Interval, surrounds_spec};
use crate::material::{Material, material_wf};

verus! {

/// Componentwise cap on scene coordinates: sphere centers and radii.
pub const COORD_MAX: i64 = 0x80_0000;

/// Cap on the components of ray directions, primary or scattered.
pub const RAY_MAX: i64 = 0x100_0000;

/// Cap on the components of ray origins; hit points stay within it, so
/// scattered rays are well-formed again.
pub const ORIGIN_MAX: i64 = 0x200_0000;

/// Floor on sphere radii: a sixteenth of a whole unit. Below it the
/// rounding of the intersection arithmetic can displace the computed hit
/// point by more than the radius itself, so smaller spheres are not
/// representable geometry.
pub const RADIUS_MIN: i64 = 0x1000;

/// Floor on the squared length of a traceable ray direction: a quarter of
/// one whole unit (a direction of length one half). Below it the quotient
/// `(h - sqrt(discr)) / a` loses so much precision that the reported root
/// no longer lands near the sphere; such rays are outside the
/// intersection contract.
pub const TRACE_DIR_MIN: i64 = 0x4000;

/// Cap on the magnitude of interval endpoints handed to `hit`.
pub const T_LIMIT: i64 = 0x4000_0000;

/// Cap on the components of a produced hit point: on a sphere within
/// `COORD_MAX`, a point is never further than about two radii from the
/// center.
pub const POINT_MAX: i64 = 0x200_0000;

#[derive(Clone, Copy, Debug, PartialEq, Eq, Structural)]
pub struct HitRectord {
    pub point: Vec3,
    pub normal: Vec3,
    pub t: i64,
    pub front_face: bool,
    pub material: Material,
}

/// What every produced hit record satisfies; the scattering code relies on
/// it.
pub open spec fn hit_wf(h: HitRectord) -> bool {
    bounded3(h.point, POINT_MAX as int)
        && bounded3(h.normal, UNIT_MAX as int)
        && h.normal != zero3()
        && material_wf(h.material)
}

#[derive(Clone, Copy, Debug, PartialEq, Eq, Structural)]
pub struct Sphere {
    pub center: Vec3,
    pub radius: i64,
    pub material: Material,
}

pub open spec fn sphere_wf(s: Sphere) -> bool {
    bounded3(s.center, COORD_MAX as int)
        && RADIUS_MIN <= s.radius <= COORD_MAX
        && material_wf(s.material)
}

/// A ray whose origin and direction are within the traceable range.
pub open spec fn ray_wf(r: Ray) -> bool {
    bounded3(r.origin, ORIGIN_MAX as int) && bounded3(r.dir, RAY_MAX as int)
}

/// A ray the intersection arithmetic can handle: well-formed, with a
/// direction above the precision floor.
pub open spec fn ray_traceable(r: Ray) -> bool {
    ray_wf(r) && dot3(r.dir, r.dir) >= TRACE_DIR_MIN
}

/// An interval whose endpoints are within the hit parameter range.
pub open spec fn interval_wf(i: Interval) -> bool {
    -T_LIMIT <= i.min && i.max <= T_LIMIT
}

/// The record a sphere produces for an accepted root: world point, outward
/// normal scaled by the radius, orientation against the ray. A degenerate
/// record yields no hit: an outward normal escaping the unit range, or one
/// at right angles to the ray at the arithmetic's resolution (which covers
/// the zero normal), cannot be oriented against the ray.
pub open spec fn sphere_record_at(s: Sphere, r: Ray, root: int) -> Option<HitRectord> {
    let point = ray_at(r, root);
    let outward = divs3(sub3(point, s.center), s.radius as int);
    if !bounded3(outward, UNIT_MAX as int) || dot3(r.dir, outward) == 0 {
        None
    } else {
        let ff = dot3(r.dir, outward) < 0;
        let normal = if ff {
            outward
        } else {
            neg3(outward)
        };
        Some(HitRectord {
            point,
            normal,
            t: root as i64,
            front_face: ff,
            material: s.material,
        })
    }
}

/// The exact semantics of `Sphere::hit`: the half-b quadratic
/// `a t^2 - 2 h t + c`, no hit for a negative discriminant (or a degenerate
/// zero `a`), otherwise the smaller root if the interval strictly surrounds
/// it, else the larger root, else no hit.
pub open spec fn sphere_hit_spec(s: Sphere, r: Ray, itv: Interval) -> Option<HitRectord> {
    let oc = sub3(s.center, r.origin);
    let a = dot3(r.dir, r.dir);
    let h = dot3(r.dir, oc);
    let c = dot3(oc, oc) - fmul(s.radius as int, s.radius as int);
    let discr = fmul(h, h) - fmul(a, c);
    if discr < 0 || a == 0 {
        None
    } else {
        let sq = fsqrt(discr);
        let r1 = fdiv(h - sq, a);
        let r2 = fdiv(h + sq, a);
        if surrounds_spec(itv, r1) {
            sphere_record_at(s, r, r1)
        } else if surrounds_spec(itv, r2) {
            sphere_record_at(s, r, r2)
        } else {
            None
        }
    }
}

impl Sphere {
    pub fn new(center: Vec3, radius: i64, material: Material) -> (r: Self)
        ensures
            r == (Sphere { center, radius, material }),
    {
        Sphere { center, radius, material }
    }

    /// Intersect against `ray` within `interval`; exactly `sphere_hit_spec`.
    ///
    /// The well-formedness floors (`RADIUS_MIN` on the sphere,
    /// `TRACE_DIR_MIN` on the ray direction) are preconditions of the
    /// intersection arithmetic itself: below them, the rounding in the
    /// quadratic can move the computed hit point off the sphere, so
    /// geometry and rays under the floor are outside this contract.
    pub fn hit(&self, ray: &Ray, interval: Interval) -> (res: Option<HitRectord>)
        requires
            sphere_wf(*self),
            ray_traceable(*ray),
            interval_wf(interval),
        ensures
            res == sphere_hit_spec(*self, *ray, interval),
            (match res {
                Some(rec) => hit_wf(rec) && surrounds_spec(interval, rec.t as int)
                    && dot3(ray.dir, rec.normal) < 0,
                None => true,
            }),
    {
        let oc = self.center.sub(&ray.origin);
        proof {
            lemma_dot3_self_nonneg(ray.dir);
            lemma_dot3_bound(ray.dir, ray.dir, RAY_MAX as int, RAY_MAX as int);
            lemma_dot3_bound(ray.dir, sub3(self.center, ray.origin),
                RAY_MAX as int, 0x400_0000);
            lemma_dot3_bound(sub3(self.center, ray.origin), sub3(self.center, ray.origin),
                0x400_0000, 0x400_0000);
            lemma_fmul_bound(self.radius as int, self.radius as int,
                COORD_MAX as int, COORD_MAX as int);
        }
        let a = ray.dir.dot(&ray.dir);
        let h = ray.dir.dot(&oc);
        let c = oc.dot(&oc) - fx_mul(self.radius, self.radius);
        proof {
            lemma_fmul_bound(h as int, h as int, 0x10_0000_0000, 0x10_0000_0000);
            lemma_fmul_bound(a as int, c as int, 0x4_0000_0000, 0x40_0000_0000);
        }
        let discr = fx_mul(h, h) - fx_mul(a, c);
        if discr < 0 || a == 0 {
            return None;
        }
        let sq = fx_sqrt(discr);
        proof {
            crate::fixed::lemma_sqrt_floor(((discr as int) * (SCALE as int)) as nat);
            assert(sq * sq <= (discr as int) * (SCALE as int));
            assert(sq <= 0x20_0000_0000) by (nonlinear_arith)
                requires
                    0 <= sq,
                    sq * sq <= 0x400_0000_0000_0000_0000;
        }
        let r1 = fx_div(h - sq, a);
        let r2 = fx_div(h + sq, a);
        if interval.surrounds(r1) {
            self.record_at(ray, r1)
        } else if interval.surrounds(r2) {
            self.record_at(ray, r2)
        } else {
            None
        }
    }

    /// Build the oriented record for an accepted root; exactly
    /// `sphere_record_at`.
    fn record_at(&self, ray: &Ray, root: i64) -> (res: Option<HitRectord>)
        requires
            sphere_wf(*self),
            ray_wf(*ray),
            -T_LIMIT <= root <= T_LIMIT,
        ensures
            res == sphere_record_at(*self, *ray, root as int),
            (match res {
                Some(rec) => hit_wf(rec) && rec.t == root
                    && dot3(ray.dir, rec.normal) < 0,
                None => true,
            }),
    {
        let point = ray.at(root);
        proof {
            lemma_fmul_bound(ray.dir.x as int, root as int, RAY_MAX as int, T_LIMIT as int);
            lemma_fmul_bound(ray.dir.y as int, root as int, RAY_MAX as int, T_LIMIT as int);
            lemma_fmul_bound(ray.dir.z as int, root as int, RAY_MAX as int, T_LIMIT as int);
        }
        let pc = point.sub(&self.center);
        let outward = pc.div(self.radius);
        if outward.x <= UNIT_MAX && outward.x >= -UNIT_MAX && outward.y <= UNIT_MAX
            && outward.y >= -UNIT_MAX && outward.z <= UNIT_MAX && outward.z >= -UNIT_MAX {
            proof {
                lemma_outward_component(pc.x as int, self.radius as int);
                lemma_outward_component(pc.y as int, self.radius as int);
                lemma_outward_component(pc.z as int, self.radius as int);
            }
            let d = ray.dir.dot(&outward);
            if d == 0 {
                return None;
            }
            proof {
                lemma_dot3_zero_vec(ray.dir);
            }
            let ff = d < 0;
            let normal = if ff {
                outward
            } else {
                outward.neg()
            };
            proof {
                if !ff {
                    lemma_dot3_neg(ray.dir, outward);
                }
            }
            Some(HitRectord { point, normal, t: root, front_face: ff, material: self.material })
        } else {
            None
        }
    }
}

/// A point whose radius-scaled offset from the center stays within the
/// unit range is itself within about two radii of the center.
proof fn lemma_outward_component(x: int, rad: int)
    requires
        1 <= rad <= COORD_MAX,
        abs(fdiv(x, rad)) <= UNIT_MAX,
    ensures
        abs(x) <= 0x100_0080,
{
    lemma_tdiv_abs(x * SCALE, rad);
    let q = abs(x * SCALE) as int / rad;
    vstd::arithmetic::div_mod::lemma_fundamental_div_mod(abs(x * SCALE) as int, rad);
    vstd::arithmetic::div_mod::lemma_mod_bound(abs(x * SCALE) as int, rad);
    assert(abs(x * SCALE) as int == rad * q + abs(x * SCALE) as int % rad);
    assert(rad * q <= rad * (UNIT_MAX as int)) by (nonlinear_arith)
        requires q <= UNIT_MAX, 1 <= rad;
    assert(rad * (UNIT_MAX as int) + rad <= (COORD_MAX as int) * (UNIT_MAX as int)
        + COORD_MAX) by (nonlinear_arith)
        requires 1 <= rad <= COORD_MAX;
    assert(abs(x * SCALE) == abs(x) * (SCALE as int)) by (nonlinear_arith);
    assert(abs(x) * (SCALE as int) <= 0x100_0080 * (SCALE as int));
    assert(abs(x) <= 0x100_0080) by (nonlinear_arith)
        requires abs(x) * (SCALE as int) <= 0x100_0080 * (SCALE as int);
}

/// Negating one argument of a dot product negates the result.
pub proof fn lemma_dot3_neg(a: Vec3, b: Vec3)
    requires
        bounded3(b, 0x2000_0000_0000_0000),
    ensures
        dot3(a, neg3(b)) == -dot3(a, b),
{
    crate::fixed::lemma_tdiv_neg((a.x as int) * (b.x as int), SCALE as int);
    crate::fixed::lemma_tdiv_neg((a.y as int) * (b.y as int), SCALE as int);
    crate::fixed::lemma_tdiv_neg((a.z as int) * (b.z as int), SCALE as int);
    assert((a.x as int) * (neg3(b).x as int) == -((a.x as int) * (b.x as int)))
        by (nonlinear_arith)
        requires neg3(b).x as int == -(b.x as int);
    assert((a.y as int) * (neg3(b).y as int) == -((a.y as int) * (b.y as int)))
        by (nonlinear_arith)
        requires neg3(b).y as int == -(b.y as int);
    assert((a.z as int) * (neg3(b).z as int) == -((a.z as int) * (b.z as int)))
        by (nonlinear_arith)
        requires neg3(b).z as int == -(b.z as int);
}

/// The discriminant of the intersection quadratic.
pub open spec fn sphere_discr(s: Sphere, r: Ray) -> int {
    let oc = sub3(s.center, r.origin);
    let a = dot3(r.dir, r.dir);
    let h = dot3(r.dir, oc);
    let c = dot3(oc, oc) - fmul(s.radius as int, s.radius as int);
    fmul(h, h) - fmul(a, c)
}

/// The smaller root of the intersection quadratic.
pub open spec fn sphere_root_small(s: Sphere, r: Ray) -> int {
    let oc = sub3(s.center, r.origin);
    let a = dot3(r.dir, r.dir);
    let h = dot3(r.dir, oc);
    fdiv(h - fsqrt(sphere_discr(s, r)), a)
}

/// The larger root of the intersection quadratic.
pub open spec fn sphere_root_large(s: Sphere, r: Ray) -> int {
    let oc = sub3(s.center, r.origin);
    let a = dot3(r.dir, r.dir);
    let h = dot3(r.dir, oc);
    fdiv(h + fsqrt(sphere_discr(s, r)), a)
}

/// Root selection for a ray that meets the sphere: the two roots are
/// ordered, the reported parameter is the smaller root whenever the
/// interval strictly surrounds it, the larger root when only that one
/// qualifies, and there is no hit when neither does (nor when the
/// discriminant is negative).
pub proof fn lemma_sphere_reports_nearest_root(s: Sphere, r: Ray, itv: Interval)
    ensures
        sphere_root_small(s, r) <= sphere_root_large(s, r)
            || dot3(r.dir, r.dir) == 0 || sphere_discr(s, r) < 0,
        sphere_discr(s, r) < 0 || dot3(r.dir, r.dir) == 0
            ==> sphere_hit_spec(s, r, itv) is None,
        (match sphere_hit_spec(s, r, itv) {
            Some(rec) => surrounds_spec(itv, rec.t as int)
                && (rec.t as int == if surrounds_spec(itv, sphere_root_small(s, r)) {
                    sphere_root_small(s, r)
                } else {
                    sphere_root_large(s, r)
                }),
            None => sphere_discr(s, r) < 0 || dot3(r.dir, r.dir) == 0
                || (surrounds_spec(itv, sphere_root_small(s, r))
                    && sphere_record_at(s, r, sphere_root_small(s, r)) is None)
                || (!surrounds_spec(itv, sphere_root_small(s, r))
                    && surrounds_spec(itv, sphere_root_large(s, r))
                    && sphere_record_at(s, r, sphere_root_large(s, r)) is None)
                || (!surrounds_spec(itv, sphere_root_small(s, r))
                    && !surrounds_spec(itv, sphere_root_large(s, r))),
        }),
{
    let a = dot3(r.dir, r.dir);
    let discr = sphere_discr(s, r);
    if discr >= 0 && a != 0 {
        lemma_dot3_self_nonneg(r.dir);
        crate::fixed::lemma_sqrt_floor((discr * (SCALE as int)) as nat);
        let sq = fsqrt(discr);
        let oc = sub3(s.center, r.origin);
        let h = dot3(r.dir, oc);
        lemma_tdiv_mono((h - sq) * SCALE, (h + sq) * SCALE, a);
        assert((h - sq) * SCALE <= (h + sq) * SCALE) by (nonlinear_arith)
            requires 0 <= sq;
        let r1 = sphere_root_small(s, r);
        let r2 = sphere_root_large(s, r);
        if surrounds_spec(itv, r1) {
            assert(match sphere_record_at(s, r, r1) {
                Some(rec) => rec.t == r1,
                None => true,
            });
        } else if surrounds_spec(itv, r2) {
            assert(match sphere_record_at(s, r, r2) {
                Some(rec) => rec.t == r2,
                None => true,
            });
        }
    }
}

/// Every reported hit carries a front-facing normal: its dot product with
/// the incoming direction is strictly negative (records whose outward
/// normal cannot be oriented against the ray are never produced).
pub proof fn lemma_hit_normal_front_facing(s: Sphere, r: Ray, itv: Interval)
    requires
        sphere_wf(s),
        ray_wf(r),
        interval_wf(itv),
    ensures
        (match sphere_hit_spec(s, r, itv) {
            Some(rec) => dot3(r.dir, rec.normal) < 0,
            None => true,
        }),
{
    if let Some(rec) = sphere_hit_spec(s, r, itv) {
        let outward = divs3(sub3(ray_at(r, rec.t as int), s.center), s.radius as int);
        if dot3(r.dir, outward) < 0 {
            assert(rec.normal == outward);
        } else {
            assert(rec.normal == neg3(outward));
            lemma_dot3_neg(r.dir, outward);
        }
    }
}

/// Narrowing the upper end of the search interval keeps a sphere's hit
/// exactly when its parameter still lies below the new end, and loses it
/// otherwise.
pub proof fn lemma_sphere_hit_narrow(s: Sphere, r: Ray, itv: Interval, itv2: Interval)
    requires
        itv2.min == itv.min,
        itv2.max <= itv.max,
    ensures
        sphere_hit_spec(s, r, itv2) == (match sphere_hit_spec(s, r, itv) {
            Some(rec) => if (rec.t as int) < itv2.max {
                Some(rec)
            } else {
                None::<HitRectord>
            },
            None => None::<HitRectord>,
        }),
{
    let oc = sub3(s.center, r.origin);
    let a = dot3(r.dir, r.dir);
    let h = dot3(r.dir, oc);
    let c = dot3(oc, oc) - fmul(s.radius as int, s.radius as int);
    let discr = fmul(h, h) - fmul(a, c);
    if discr < 0 || a == 0 {
    } else {
        let sq = fsqrt(discr);
        crate::fixed::lemma_sqrt_floor(((discr) * (SCALE as int)) as nat);
        lemma_dot3_self_nonneg(r.dir);
        let r1 = fdiv(h - sq, a);
        let r2 = fdiv(h + sq, a);
        lemma_tdiv_mono((h - sq) * SCALE, (h + sq) * SCALE, a);
        assert((h - sq) * SCALE <= (h + sq) * SCALE) by (nonlinear_arith)
            requires 0 <= sq;
        assert(r1 <= r2);
        if surrounds_spec(itv, r1) {
            if surrounds_spec(itv2, r1) {
                assert(match sphere_record_at(s, r, r1) {
                    Some(rec) => rec.t == r1,
                    None => true,
                });
            }
        }
    }
}

/// The closed set of intersectable shapes.
#[derive(Clone, Copy, Debug, PartialEq, Eq, Structural)]
pub enum Hittable {
    Sphere(Sphere),
}

pub open spec fn hittable_wf(h: Hittable) -> bool {
    match h {
        Hittable::Sphere(s) => sphere_wf(s),
    }
}

pub open spec fn hittable_hit_spec(h: Hittable, r: Ray, itv: Interval) -> Option<HitRectord> {
    match h {
        Hittable::Sphere(s) => sphere_hit_spec(s, r, itv),
    }
}

impl Hittable {
    pub fn hit(&self, ray: &Ray, interval: Interval) -> (res: Option<HitRectord>)
        requires
            hittable_wf(*self),
            ray_traceable(*ray),
            interval_wf(interval),
        ensures
            res == hittable_hit_spec(*self, *ray, interval),
            (match res {
                Some(rec) => hit_wf(rec) && surrounds_spec(interval, rec.t as int)
                    && dot3(ray.dir, rec.normal) < 0,
                None => true,
            }),
    {
        match self {
            Hittable::Sphere(s) => s.hit(ray, interval),
        }
    }
}

pub struct HittableList {
    pub objects: Vec<Hittable>,
}

/// What `HittableList::hit` guarantees of its result: a reported record is
/// well formed, lies strictly inside the search interval, faces the ray,
/// is some member's own hit over the whole interval, and no member hits
/// closer; no record means no member hits at all.
pub open spec fn list_hit_post(l: HittableList, ray: Ray, itv: Interval,
    res: Option<HitRectord>) -> bool {
    match res {
        Some(rec) => hit_wf(rec) && surrounds_spec(itv, rec.t as int)
            && dot3(ray.dir, rec.normal) < 0
            && (exists|i: int| 0 <= i < l.objects.len()
                && hittable_hit_spec(#[trigger] l.objects[i], ray, itv) == Some(rec))
            && (forall|j: int| 0 <= j < l.objects.len()
                ==> (match hittable_hit_spec(#[trigger] l.objects[j], ray, itv) {
                    Some(other) => rec.t <= other.t,
                    None => true,
                })),
        None => forall|j: int| 0 <= j < l.objects.len()
            ==> hittable_hit_spec(#[trigger] l.objects[j], ray, itv) is None,
    }
}

pub open spec fn list_wf(l: HittableList) -> bool {
    forall|i: int| 0 <= i < l.objects.len() ==> hittable_wf(#[trigger] l.objects[i])
}

impl HittableList {
    pub fn new() -> (r: Self)
        ensures
            r.objects@ =~= Seq::<Hittable>::empty(),
            list_wf(r),
    {
        HittableList { objects: Vec::new() }
    }

    pub fn add(&mut self, hittable: Hittable)
        requires
            hittable_wf(hittable),
            list_wf(*old(self)),
        ensures
            final(self).objects@ == old(self).objects@.push(hittable),
            list_wf(*final(self)),
    {
        self.objects.push(hittable);
    }

    /// Scan every member, narrowing the search interval to the closest hit
    /// found so far. The result is the member hit with the smallest
    /// parameter over the whole original interval: the nearest-wins
    /// invariant.
    pub fn hit(&self, ray: &Ray, interval: Interval) -> (res: Option<HitRectord>)
        requires
            list_wf(*self),
            ray_traceable(*ray),
            interval_wf(interval),
        ensures
            list_hit_post(*self, *ray, interval, res),
    {
        let mut closest: i64 = interval.max;
        let mut closest_record: Option<HitRectord> = None;
        let n = self.objects.len();
        let mut k: usize = 0;
        while k < n
            invariant
                n == self.objects.len(),
                0 <= k <= n,
                list_wf(*self),
                ray_traceable(*ray),
                interval_wf(interval),
                closest <= interval.max,
                (match closest_record {
                    Some(rec) => hit_wf(rec) && surrounds_spec(interval, rec.t as int)
                        && dot3(ray.dir, rec.normal) < 0
                        && rec.t == closest
                        && (exists|i: int| 0 <= i < k
                            && hittable_hit_spec(#[trigger] self.objects[i], *ray, interval)
                                == Some(rec))
                        && (forall|j: int| 0 <= j < k
                            ==> (match hittable_hit_spec(
                                    #[trigger] self.objects[j], *ray, interval) {
                                Some(other) => rec.t <= other.t,
                                None => true,
                            })),
                    None => closest == interval.max
                        && forall|j: int| 0 <= j < k
                            ==> hittable_hit_spec(#[trigger] self.objects[j], *ray, interval)
                                is None,
                }),
            decreases n - k,
        {
            let obj = &self.objects[k];
            let narrowed = Interval { min: interval.min, max: closest };
            let attempt = obj.hit(ray, narrowed);
            proof {
                match *obj {
                    Hittable::Sphere(s) => {
                        lemma_sphere_hit_narrow(s, *ray, interval, narrowed);
                    }
                }
            }
            if let Some(rec) = attempt {
                closest = rec.t;
                closest_record = Some(rec);
            }
            k = k + 1;
        }
        closest_record
    }
}

} // verus!
