//! Closed numeric ranges over fixed-point scalars: they bound the valid hit
//! parameters of a ray and clamp color channels before quantization.

use vstd::prelude::*;

verus! {

#[derive(Clone, Copy, Debug, PartialEq, Eq, Structural)]
pub struct Interval {
    pub min: i64,
    pub max: i64,
}

/// Strict containment, the test that keeps a hit parameter away from the
/// ray's own origin.
pub open spec fn surrounds_spec(i: Interval, x: int) -> bool {
    i.min < x < i.max
}

impl Interval {
    pub fn new(min: i64, max: i64) -> (r: Self)
        ensures
            r == (Interval { min, max }),
    {
        Interval { min, max }
    }

    /// Closed containment.
    pub fn contains(&self, x: i64) -> (r: bool)
        ensures
            r == (self.min <= x <= self.max),
    {
        self.min <= x && x <= self.max
    }

    /// Open containment.
    pub fn surrounds(&self, x: i64) -> (r: bool)
        ensures
            r == surrounds_spec(*self, x as int),
    {
        self.min < x && x < self.max
    }

    /// The nearest point of the range: `min` below it, `max` above it, `x`
    /// inside it.
    pub fn clamp(&self, x: i64) -> (r: i64)
        ensures
            r == if x < self.min { self.min } else if x > self.max { self.max } else { x },
    {
        if x < self.min {
            self.min
        } else if x > self.max {
            self.max
        } else {
            x
        }
    }
}

} // verus!
