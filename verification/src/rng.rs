//! The single randomness primitive: a uniform fixed-point draw.
//!
//! Everything stochastic in the tracer (pixel jitter, diffuse bounce
//! directions, aperture sampling, the reflect/refract coin of a dielectric)
//! funnels through this one wrapper, so the rest of the library is verified
//! for every value the generator may produce.

use vstd::prelude::*;
use rand::Rng;

verus! {

/// A uniform draw from the inclusive range `[min, max]`.
///
/// Relies on `rand::Rng::random_range` over `min..=max`, which returns a
/// value of the range and panics only when the range is empty; the
/// precondition rules that out. Nothing more is assumed of the
/// distribution.
#[verifier::external_body]
pub fn random_fixed(min: i64, max: i64) -> (r: i64)
    requires
        min <= max,
    ensures
        min <= r <= max,
{
    rand::rng().random_range(min..=max)
}

} // verus!
