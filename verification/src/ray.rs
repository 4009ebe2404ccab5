//! A ray is an origin and a direction; its only operation beyond accessors
//! is parametric evaluation.

use vstd::prelude::*;
use crate::fixed::MUL_ARG_MAX;
use crate::vec3::{Vec3, add3, scale3, bounded3};

verus! {

#[derive(Clone, Copy, Debug, PartialEq, Eq, Structural)]
pub struct Ray {
    pub origin: Vec3,
    pub dir: Vec3,
}

/// The point a ray reaches at parameter `t`: `origin + dir * t`.
pub open spec fn ray_at(r: Ray, t: int) -> Vec3 {
    add3(r.origin, scale3(r.dir, t))
}

impl Ray {
    pub fn new(origin: Vec3, dir: Vec3) -> (r: Self)
        ensures
            r == (Ray { origin, dir }),
    {
        Ray { origin, dir }
    }

    pub fn origin(&self) -> (r: &Vec3)
        ensures
            r == self.origin,
    {
        &self.origin
    }

    pub fn dir(&self) -> (r: &Vec3)
        ensures
            r == self.dir,
    {
        &self.dir
    }

    /// Evaluate the ray at parameter `scalar`.
    pub fn at(&self, scalar: i64) -> (r: Vec3)
        requires
            bounded3(self.origin, 0x1000_0000_0000_0000),
            bounded3(self.dir, MUL_ARG_MAX as int),
            -MUL_ARG_MAX <= scalar <= MUL_ARG_MAX,
        ensures
            r == ray_at(*self, scalar as int),
    {
        proof {
            crate::fixed::lemma_fmul_bound(
                self.dir.x as int, scalar as int, MUL_ARG_MAX as int, MUL_ARG_MAX as int);
            crate::fixed::lemma_fmul_bound(
                self.dir.y as int, scalar as int, MUL_ARG_MAX as int, MUL_ARG_MAX as int);
            crate::fixed::lemma_fmul_bound(
                self.dir.z as int, scalar as int, MUL_ARG_MAX as int, MUL_ARG_MAX as int);
        }
        self.origin.add(&self.dir.mul(scalar))
    }
}

} // verus!
