//! A closed scalar range with containment and clamping, plus the empty
//! and all-covering ranges (their bounds stand at the saturation limits,
//! the fixed-point stand-ins for the infinities).
use vstd::prelude::*;

use crate::fixed::{fx_wf, Fx, FX_MAX_RAW, FX_MIN_RAW};

verus! {

/// A scalar range `[min, max]`.
#[derive(Clone, Copy, Debug, PartialEq, Eq, Structural)]
pub struct Interval {
    pub min: Fx,
    pub max: Fx,
}

/// Well-formedness: both bounds are well-formed scalars.
pub open spec fn interval_wf(i: Interval) -> bool {
    fx_wf(i.min) && fx_wf(i.max)
}

/// Inclusive containment.
pub open spec fn spec_contains(i: Interval, x: Fx) -> bool {
    i.min.raw <= x.raw && x.raw <= i.max.raw
}

/// Exclusive containment.
pub open spec fn spec_surrounds(i: Interval, x: Fx) -> bool {
    i.min.raw < x.raw && x.raw < i.max.raw
}

/// Saturating clamp of `x` into the range.
pub open spec fn spec_clamp(i: Interval, x: Fx) -> Fx {
    if x.raw < i.min.raw {
        i.min
    } else if x.raw > i.max.raw {
        i.max
    } else {
        x
    }
}

impl Interval {
    /// The empty range: its lower bound above its upper bound, both at
    /// the representable extremes.
    pub fn new() -> (r: Interval)
        ensures
            r.min.raw == FX_MAX_RAW,
            r.max.raw == FX_MIN_RAW,
            interval_wf(r),
    {
        Interval { min: Fx { raw: FX_MAX_RAW }, max: Fx { raw: FX_MIN_RAW } }
    }

    /// The range `[min, max]`.
    pub fn with_bounds(min: Fx, max: Fx) -> (r: Interval)
        ensures
            r == (Interval { min, max }),
    {
        Interval { min, max }
    }

    /// The range containing every representable scalar.
    pub fn universe() -> (r: Interval)
        ensures
            r.min.raw == FX_MIN_RAW,
            r.max.raw == FX_MAX_RAW,
            interval_wf(r),
    {
        Interval { min: Fx { raw: FX_MIN_RAW }, max: Fx { raw: FX_MAX_RAW } }
    }

    /// The range's width (saturating; negative for an empty range).
    pub fn size(&self) -> (r: Fx)
        requires
            interval_wf(*self),
        ensures
            r.raw == crate::fixed::fx_sub_raw(self.max.raw as int, self.min.raw as int),
            fx_wf(r),
    {
        self.max.sub(self.min)
    }

    /// Inclusive containment test.
    pub fn contains(&self, x: Fx) -> (r: bool)
        ensures
            r == spec_contains(*self, x),
    {
        self.min.raw <= x.raw && x.raw <= self.max.raw
    }

    /// Exclusive containment test.
    pub fn surrounds(&self, x: Fx) -> (r: bool)
        ensures
            r == spec_surrounds(*self, x),
    {
        self.min.raw < x.raw && x.raw < self.max.raw
    }

    /// Clamps `x` into the range.
    pub fn clamp(&self, x: Fx) -> (r: Fx)
        ensures
            r == spec_clamp(*self, x),
    {
        if x.raw < self.min.raw {
            self.min
        } else if x.raw > self.max.raw {
            self.max
        } else {
            x
        }
    }
}

impl Default for Interval {
    /// The empty range.
    fn default() -> (r: Interval)
        ensures
            r.min.raw == FX_MAX_RAW,
            r.max.raw == FX_MIN_RAW,
    {
        Interval::new()
    }
}

} // verus!
