//! A parametric line: origin plus scaled direction.
use vstd::prelude::*;

use crate::fixed::{fx_wf, Fx};
use crate::vec3::{spec_vadd, spec_vscale, v_wf, Point3, Vec3};

verus! {

/// A ray, immutable after construction.
#[derive(Clone, Copy, Debug, PartialEq, Eq, Structural)]
pub struct Ray {
    pub orig: Point3,
    pub dir: Vec3,
}

/// Well-formedness: origin and direction are well-formed vectors.
pub open spec fn ray_wf(r: Ray) -> bool {
    v_wf(r.orig) && v_wf(r.dir)
}

/// The point `origin + t * direction`.
pub open spec fn spec_ray_at(r: Ray, t: Fx) -> Point3 {
    spec_vadd(r.orig, spec_vscale(r.dir, t))
}

impl Ray {
    /// Builds a ray from an origin and a direction.
    pub fn new(origin: Point3, direction: Vec3) -> (r: Ray)
        ensures
            r == (Ray { orig: origin, dir: direction }),
    {
        Ray { orig: origin, dir: direction }
    }

    /// The ray's origin.
    pub fn origin(&self) -> (r: Point3)
        ensures
            r == self.orig,
    {
        self.orig
    }

    /// The ray's direction.
    pub fn direction(&self) -> (r: Vec3)
        ensures
            r == self.dir,
    {
        self.dir
    }

    /// Evaluates the ray at parameter `t`.
    pub fn at(&self, t: Fx) -> (r: Point3)
        requires
            ray_wf(*self),
            fx_wf(t),
        ensures
            r == spec_ray_at(*self, t),
            v_wf(r),
    {
        self.orig.add(self.dir.scale(t))
    }
}

impl Default for Ray {
    /// A ray at the origin with a zero direction.
    fn default() -> (r: Ray)
        ensures
            r.orig == (Vec3 { x: Fx { raw: 0 }, y: Fx { raw: 0 }, z: Fx { raw: 0 } }),
            r.dir == (Vec3 { x: Fx { raw: 0 }, y: Fx { raw: 0 }, z: Fx { raw: 0 } }),
    {
        Ray { orig: Vec3::zero(), dir: Vec3::zero() }
    }
}

} // verus!
