//! The sphere primitive and its ray-intersection algorithm.
use vstd::prelude::*;

use crate::fixed::{
    fx_add_raw, fx_div_raw, fx_mul_raw, fx_sqrt_raw, fx_sub_raw, fx_wf, spec_fx, Fx, FX_SCALE,
};
use crate::hittable::{rec_wf, spec_face_normal, HitRecord};
use crate::interval::{interval_wf, spec_surrounds, Interval};
use crate::material::{mat_wf, Material};
use crate::ray::{ray_wf, spec_ray_at, Ray};
use crate::vec3::{spec_dot, spec_len_sq, spec_vdiv, spec_vsub, v_wf, Point3, Vec3};

verus! {

/// A sphere bound to its surface material.
#[derive(Clone, Copy, Debug)]
pub struct Sphere {
    pub center: Point3,
    pub radius: Fx,
    pub mat: Material,
}

/// Well-formedness: coordinates and radius in range, radius
/// nonnegative, material well-formed.
pub open spec fn sphere_wf(s: Sphere) -> bool {
    v_wf(s.center) && fx_wf(s.radius) && s.radius.raw >= 0 && mat_wf(s.mat)
}

/// The discriminant (times the fixed-point scale) of the ray-sphere
/// quadratic: `h*h - a*c` over the fixed-point operations, where
/// `a = |dir|^2`, `h = dot(dir, center - origin)` and
/// `c = |center - origin|^2 - radius^2`.
pub open spec fn spec_sphere_discriminant(s: Sphere, r: Ray) -> Fx {
    let oc = spec_vsub(s.center, r.orig);
    let a = spec_len_sq(r.dir);
    let h = spec_dot(r.dir, oc);
    let c = spec_fx(
        fx_sub_raw(
            spec_len_sq(oc).raw as int,
            fx_mul_raw(s.radius.raw as int, s.radius.raw as int),
        ),
    );
    spec_fx(
        fx_sub_raw(
            fx_mul_raw(h.raw as int, h.raw as int),
            fx_mul_raw(a.raw as int, c.raw as int),
        ),
    )
}

/// The smaller root `(h - sqrt(disc)) / a` of the quadratic.
pub open spec fn spec_sphere_root1(s: Sphere, r: Ray) -> Fx {
    let oc = spec_vsub(s.center, r.orig);
    let a = spec_len_sq(r.dir);
    let h = spec_dot(r.dir, oc);
    let sqrtd = fx_sqrt_raw(spec_sphere_discriminant(s, r).raw as int);
    spec_fx(fx_div_raw(fx_sub_raw(h.raw as int, sqrtd), a.raw as int))
}

/// The larger root `(h + sqrt(disc)) / a` of the quadratic.
pub open spec fn spec_sphere_root2(s: Sphere, r: Ray) -> Fx {
    let oc = spec_vsub(s.center, r.orig);
    let a = spec_len_sq(r.dir);
    let h = spec_dot(r.dir, oc);
    let sqrtd = fx_sqrt_raw(spec_sphere_discriminant(s, r).raw as int);
    spec_fx(fx_div_raw(fx_add_raw(h.raw as int, sqrtd), a.raw as int))
}

/// The hit record a sphere reports for an accepted root: the hit point,
/// the outward normal `(p - center) / radius` flipped against the ray,
/// the shared material, and the root itself.
pub open spec fn spec_sphere_rec(s: Sphere, r: Ray, root: Fx) -> HitRecord {
    let p = spec_ray_at(r, root);
    let outward = spec_vdiv(spec_vsub(p, s.center), s.radius);
    let fn_pair = spec_face_normal(r, outward);
    HitRecord { p, normal: fn_pair.1, mat: s.mat, t: root, front_face: fn_pair.0 }
}

/// The nearest valid ray-sphere intersection inside `ray_t`: none when
/// the discriminant is negative; otherwise the smaller root when the
/// range surrounds it, else the larger root when the range surrounds
/// it, else none.
pub open spec fn spec_sphere_hit(s: Sphere, r: Ray, ray_t: Interval) -> Option<HitRecord> {
    if spec_sphere_discriminant(s, r).raw < 0 {
        None
    } else {
        let root1 = spec_sphere_root1(s, r);
        let root2 = spec_sphere_root2(s, r);
        if spec_surrounds(ray_t, root1) {
            Some(spec_sphere_rec(s, r, root1))
        } else if spec_surrounds(ray_t, root2) {
            Some(spec_sphere_rec(s, r, root2))
        } else {
            None
        }
    }
}

/// A sphere hit lies strictly inside the query range.
pub proof fn lemma_sphere_hit_in_interval(s: Sphere, r: Ray, ray_t: Interval)
    ensures
        spec_sphere_hit(s, r, ray_t) matches Some(rec) ==> spec_surrounds(ray_t, rec.t),
{
}

/// A negative discriminant means no hit; otherwise the reported
/// parameter is the smaller root whenever the query range surrounds it,
/// and the larger root is reported only when the smaller is rejected.
pub proof fn lemma_sphere_hit_root_choice(s: Sphere, r: Ray, ray_t: Interval)
    ensures
        spec_sphere_discriminant(s, r).raw < 0 ==> spec_sphere_hit(s, r, ray_t) is None,
        spec_sphere_hit(s, r, ray_t) matches Some(rec) ==> {
            &&& rec.t == spec_sphere_root1(s, r) || rec.t == spec_sphere_root2(s, r)
            &&& spec_surrounds(ray_t, rec.t)
            &&& rec.t == spec_sphere_root2(s, r) && rec.t != spec_sphere_root1(s, r)
                ==> !spec_surrounds(ray_t, spec_sphere_root1(s, r))
            &&& rec.t.raw <= spec_sphere_root2(s, r).raw
        },
{
    lemma_sphere_roots_ordered(s, r);
}

/// The stored normal of a hit is within tolerance of unit length,
/// whenever the radius is at least one and the hit point's fixed
/// squared distance from the center matches the fixed squared radius to
/// within `k` quanta. (A radius below one amplifies the hit point's
/// fixed-point quantization without bound, so the claim needs these
/// hypotheses.)
pub proof fn lemma_sphere_hit_normal_near_unit(s: Sphere, r: Ray, ray_t: Interval, k: int)
    requires
        FX_SCALE <= s.radius.raw <= 0x20_0000_0000,
        spec_sphere_hit(s, r, ray_t) is Some,
        ({
            let p = spec_ray_at(r, spec_sphere_hit(s, r, ray_t)->0.t);
            let d = spec_vsub(p, s.center);
            &&& -2 * s.radius.raw <= d.x.raw <= 2 * s.radius.raw
            &&& -2 * s.radius.raw <= d.y.raw <= 2 * s.radius.raw
            &&& -2 * s.radius.raw <= d.z.raw <= 2 * s.radius.raw
            &&& 0 <= k
            &&& fx_mul_raw(s.radius.raw as int, s.radius.raw as int) - k <= spec_len_sq(d).raw
            &&& spec_len_sq(d).raw <= fx_mul_raw(s.radius.raw as int, s.radius.raw as int) + k
        }),
    ensures
        FX_SCALE - (k + 21) <= spec_len_sq(spec_sphere_hit(s, r, ray_t)->0.normal).raw,
        spec_len_sq(spec_sphere_hit(s, r, ray_t)->0.normal).raw <= FX_SCALE + (k + 21),
{
    let rec = spec_sphere_hit(s, r, ray_t)->0;
    let p = spec_ray_at(r, rec.t);
    let d = spec_vsub(p, s.center);
    let outward = spec_vdiv(d, s.radius);
    assert(rec.normal == outward || rec.normal == crate::vec3::spec_vneg(outward));
    crate::vec3::lemma_vdiv_near_unit(d, s.radius, k);
    crate::vec3::lemma_len_sq_neg(outward);
}

/// The smaller root never exceeds the larger one.
pub proof fn lemma_sphere_roots_ordered(s: Sphere, r: Ray)
    ensures
        spec_sphere_root1(s, r).raw <= spec_sphere_root2(s, r).raw,
{
    let oc = spec_vsub(s.center, r.orig);
    let a = spec_len_sq(r.dir);
    let h = spec_dot(r.dir, oc);
    let sqrtd = fx_sqrt_raw(spec_sphere_discriminant(s, r).raw as int);
    crate::fixed::lemma_sqrt_raw_nonneg(spec_sphere_discriminant(s, r).raw as int);
    crate::vec3::lemma_len_sq_nonneg(r.dir);
    crate::fixed::lemma_fx_div_mono(
        fx_sub_raw(h.raw as int, sqrtd),
        fx_add_raw(h.raw as int, sqrtd),
        a.raw as int,
    );
}

/// Shrinking the upper bound of the query range keeps a sphere hit
/// exactly when its parameter still lies under the new bound, and can
/// produce no other hit.
pub proof fn lemma_sphere_hit_shrink(s: Sphere, r: Ray, t1: Interval, t2: Interval)
    requires
        t1.min == t2.min,
        t2.max.raw <= t1.max.raw,
    ensures
        spec_sphere_hit(s, r, t2) == (if spec_sphere_hit(s, r, t1) matches Some(rec) && rec.t.raw
            < t2.max.raw {
            spec_sphere_hit(s, r, t1)
        } else {
            None
        }),
{
    let root1 = spec_sphere_root1(s, r);
    let root2 = spec_sphere_root2(s, r);
    lemma_sphere_roots_ordered(s, r);
    if spec_sphere_discriminant(s, r).raw >= 0 {
        assert(spec_surrounds(t2, root1) == (spec_surrounds(t1, root1) && root1.raw < t2.max.raw));
        assert(spec_surrounds(t2, root2) == (spec_surrounds(t1, root2) && root2.raw < t2.max.raw));
    }
}

impl Sphere {
    /// Builds a sphere; a negative radius is lifted to zero.
    pub fn new(center: Point3, radius: Fx, mat: Material) -> (s: Sphere)
        requires
            v_wf(center),
            fx_wf(radius),
            mat_wf(mat),
        ensures
            s.center == center,
            s.mat == mat,
            s.radius.raw == if radius.raw >= 0 {
                radius.raw as int
            } else {
                0
            },
            sphere_wf(s),
    {
        let r = if radius.raw >= 0 {
            radius
        } else {
            Fx { raw: 0 }
        };
        Sphere { center, radius: r, mat }
    }

    /// Intersects a ray with the sphere inside `ray_t`, preferring the
    /// smaller quadratic root.
    pub fn hit(&self, ray: &Ray, ray_t: Interval) -> (res: Option<HitRecord>)
        requires
            sphere_wf(*self),
            ray_wf(*ray),
            interval_wf(ray_t),
        ensures
            res == spec_sphere_hit(*self, *ray, ray_t),
            res matches Some(rec) ==> rec_wf(rec) && spec_surrounds(ray_t, rec.t),
    {
        let oc = self.center.sub(ray.origin());
        let a = ray.direction().length_squared();
        let h = ray.direction().dot(oc);
        let c = oc.length_squared().sub(self.radius.mul(self.radius));

        let discriminant = h.mul(h).sub(a.mul(c));
        if discriminant.raw < 0 {
            return None;
        }

        let sqrtd = discriminant.sqrt();

        let mut root = h.sub(sqrtd).div(a);
        if !ray_t.surrounds(root) {
            root = h.add(sqrtd).div(a);
            if !ray_t.surrounds(root) {
                return None;
            }
        }

        let p = ray.at(root);
        let outward_normal = p.sub(self.center).div(self.radius);

        let mut rec = HitRecord {
            p,
            normal: Vec3::zero(),
            mat: self.mat,
            t: root,
            front_face: false,
        };
        rec.set_face_normal(ray, outward_normal);

        Some(rec)
    }
}

} // verus!
