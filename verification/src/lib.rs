//! A small path tracer whose numeric core runs on signed 16.16 fixed-point
//! arithmetic, so that every geometric and shading computation has an exact
//! integer semantics that the verifier can reason about.
//!
//! The layering, leaves first: `fixed` (scalar arithmetic), `vec3` (vector
//! algebra), `ray` and `interval`, `hittable` (sphere intersection and the
//! nearest-hit sweep over a scene), `material` (Lambertian, Metal and
//! Dielectric scattering), `camera` (viewport construction, per-pixel ray
//! generation and the recursive shading loop), and `ppm` (the textual image
//! format). `rng` holds the uniform sampling primitive and `util` the frame
//! time seed.

pub mod camera;
pub mod fixed;
pub mod hittable;
pub mod interval;
pub mod material;
pub mod ppm;
pub mod ray;
pub mod rng;
pub mod util;
pub mod vec3;

use vstd::prelude::*;

verus! {

} // verus!
