//! The intersection abstraction: hit records, and the closed set of
//! intersectable shapes with its dispatching `hit`.
use vstd::prelude::*;

use crate::fixed::{fx_neg_raw, fx_wf, Fx};
use crate::hittable_list::{spec_list_hit, HittableList};
use crate::interval::{interval_wf, spec_surrounds, Interval};
use crate::material::{mat_wf, Material};
use crate::ray::{ray_wf, Ray};
use crate::sphere::{spec_sphere_hit, Sphere};
use crate::vec3::{lemma_dot_neg_right, spec_dot, spec_len_sq, spec_vneg, v_wf, Point3, Vec3};

verus! {

/// The transient result of a successful intersection test.
#[derive(Clone, Copy, Debug)]
pub struct HitRecord {
    pub p: Point3,
    pub normal: Vec3,
    pub mat: Material,
    pub t: Fx,
    pub front_face: bool,
}

/// Well-formedness of a hit record's scalars and material.
pub open spec fn rec_wf(rec: HitRecord) -> bool {
    v_wf(rec.p) && v_wf(rec.normal) && fx_wf(rec.t) && mat_wf(rec.mat)
}

/// The orientation the facing flag and stored normal take against an
/// incoming ray: the flag says whether the ray arrives against the
/// outward normal, and the stored normal is flipped to oppose the ray.
pub open spec fn spec_face_normal(r: Ray, outward_normal: Vec3) -> (bool, Vec3) {
    let front = spec_dot(r.dir, outward_normal).raw < 0;
    (
        front,
        if front {
            outward_normal
        } else {
            spec_vneg(outward_normal)
        },
    )
}

impl HitRecord {
    /// Stores the facing flag and the normal together, so that the
    /// stored normal always points against the incoming ray.
    pub fn set_face_normal(&mut self, r: &Ray, outward_normal: Vec3)
        requires
            ray_wf(*r),
            v_wf(outward_normal),
        ensures
            final(self).front_face == spec_face_normal(*r, outward_normal).0,
            final(self).normal == spec_face_normal(*r, outward_normal).1,
            final(self).p == old(self).p,
            final(self).mat == old(self).mat,
            final(self).t == old(self).t,
            v_wf(final(self).normal),
    {
        let d = r.direction().dot(outward_normal);
        self.front_face = d.raw < 0;
        self.normal = if self.front_face {
            outward_normal
        } else {
            outward_normal.neg()
        };
    }
}

/// The stored normal opposes the incoming ray: `front_face` holds
/// exactly when the ray arrives against the outward normal, the
/// direction's product with the stored normal is never positive, and
/// flipping leaves the normal's squared length untouched.
pub proof fn lemma_face_normal_opposes(r: Ray, outward_normal: Vec3)
    requires
        ray_wf(r),
        v_wf(outward_normal),
    ensures
        spec_face_normal(r, outward_normal).0 <==> spec_dot(r.dir, outward_normal).raw < 0,
        spec_dot(r.dir, spec_face_normal(r, outward_normal).1).raw <= 0,
        spec_len_sq(spec_face_normal(r, outward_normal).1) == spec_len_sq(outward_normal),
{
    let d = spec_dot(r.dir, outward_normal).raw as int;
    if d >= 0 {
        lemma_dot_neg_right(r.dir, outward_normal);
        assert(spec_dot(r.dir, spec_vneg(outward_normal)).raw == fx_neg_raw(d));
    }
    crate::vec3::lemma_len_sq_neg(outward_normal);
}

/// The closed set of intersectable shapes: a sphere, or an ordered
/// composite of intersectables.
pub enum Hittable {
    Sphere(Sphere),
    List(HittableList),
}

/// Well-formedness of a shape, down through composite children.
pub open spec fn hittable_wf(h: Hittable) -> bool
    decreases h,
{
    match h {
        Hittable::Sphere(s) => crate::sphere::sphere_wf(s),
        Hittable::List(l) => forall|i: int|
            0 <= i < l.objects@.len() ==> hittable_wf(#[trigger] l.objects@[i]),
    }
}

/// The nearest intersection of a ray with a shape inside a parameter
/// range.
pub open spec fn spec_hit(h: Hittable, r: Ray, ray_t: Interval) -> Option<HitRecord>
    decreases h,
{
    match h {
        Hittable::Sphere(s) => spec_sphere_hit(s, r, ray_t),
        Hittable::List(l) => spec_list_hit(l.objects@, r, ray_t),
    }
}

/// Any hit a shape reports lies strictly inside the query range.
pub proof fn lemma_hit_in_interval(h: Hittable, r: Ray, ray_t: Interval)
    ensures
        spec_hit(h, r, ray_t) matches Some(rec) ==> spec_surrounds(ray_t, rec.t),
    decreases h,
{
    match h {
        Hittable::Sphere(s) => {
            crate::sphere::lemma_sphere_hit_in_interval(s, r, ray_t);
        },
        Hittable::List(l) => {
            crate::hittable_list::lemma_list_hit_in_interval(l.objects@, r, ray_t);
        },
    }
}

/// Shrinking the upper bound of the query range keeps a hit exactly
/// when its parameter still lies under the new bound, and can produce
/// no other hit.
pub proof fn lemma_hit_shrink(h: Hittable, r: Ray, t1: Interval, t2: Interval)
    requires
        t1.min == t2.min,
        t2.max.raw <= t1.max.raw,
    ensures
        spec_hit(h, r, t2) == (if spec_hit(h, r, t1) matches Some(rec) && rec.t.raw < t2.max.raw {
            spec_hit(h, r, t1)
        } else {
            None
        }),
    decreases h,
{
    match h {
        Hittable::Sphere(s) => {
            crate::sphere::lemma_sphere_hit_shrink(s, r, t1, t2);
        },
        Hittable::List(l) => {
            crate::hittable_list::lemma_list_hit_shrink(l.objects@, r, t1, t2);
        },
    }
}

impl Hittable {
    /// Intersects a ray with this shape inside `ray_t`, returning the
    /// nearest valid hit.
    pub fn hit(&self, r: &Ray, ray_t: Interval) -> (res: Option<HitRecord>)
        requires
            hittable_wf(*self),
            ray_wf(*r),
            interval_wf(ray_t),
        ensures
            res == spec_hit(*self, *r, ray_t),
            res matches Some(rec) ==> rec_wf(rec) && spec_surrounds(ray_t, rec.t),
        decreases *self,
    {
        match self {
            Hittable::Sphere(s) => s.hit(r, ray_t),
            Hittable::List(l) => l.hit(r, ray_t),
        }
    }
}

} // verus!
