//! The closed set of surface materials and their scattering rules.
use vstd::prelude::*;

use crate::color::{color_wf, Color};
use crate::fixed::{fx_div_raw, fx_mul_raw, fx_sub_raw, fx_wf, spec_fx, Fx, FX_SCALE};
use crate::hittable::{rec_wf, HitRecord};
use crate::ray::{ray_wf, Ray};
use crate::sampler::{random_double, Sampler};
use crate::vec3::{
    lemma_vadd_zero, lemma_vscale_by_zero, random_unit_vector, reflect, refract, spec_dot,
    spec_near_unit, spec_near_zero, spec_reflect, spec_refract, spec_unit, spec_vadd, spec_vscale,
    v_wf, Vec3,
};

verus! {

/// A surface material: diffuse, metallic, or refractive. Materials are
/// immutable values, freely shared by the primitives that use them.
#[derive(Clone, Copy, Debug)]
pub enum Material {
    Lambertian { albedo: Color },
    Metal { albedo: Color, fuzz: Fx },
    Dielectric { refractive_index: Fx },
}

/// Well-formedness of a material's scalars.
pub open spec fn mat_wf(m: Material) -> bool {
    match m {
        Material::Lambertian { albedo } => color_wf(albedo),
        Material::Metal { albedo, fuzz } => color_wf(albedo) && fx_wf(fuzz),
        Material::Dielectric { refractive_index } => fx_wf(refractive_index),
    }
}

/// The effective refraction ratio a dielectric applies: its index on a
/// front-face hit, the reciprocal otherwise.
pub open spec fn spec_refraction_ratio(refractive_index: Fx, front_face: bool) -> Fx {
    if front_face {
        refractive_index
    } else {
        spec_fx(fx_div_raw(FX_SCALE as int, refractive_index.raw as int))
    }
}

/// Schlick's reflectance approximation:
/// `r0 + (1 - r0) * (1 - cos)^5` with `r0 = ((1 - ratio)/(1 + ratio))^2`.
pub open spec fn spec_reflectance(cosine: Fx, ratio: Fx) -> Fx {
    let one = FX_SCALE as int;
    let r0_base = fx_div_raw(
        fx_sub_raw(one, ratio.raw as int),
        crate::fixed::fx_add_raw(one, ratio.raw as int),
    );
    let r0 = fx_mul_raw(r0_base, r0_base);
    let m = fx_sub_raw(one, cosine.raw as int);
    let m2 = fx_mul_raw(m, m);
    let m4 = fx_mul_raw(m2, m2);
    let m5 = fx_mul_raw(m4, m);
    spec_fx(crate::fixed::fx_add_raw(r0, fx_mul_raw(fx_sub_raw(one, r0), m5)))
}

/// Schlick's reflectance approximation.
pub fn reflectance(cosine: Fx, ratio: Fx) -> (r: Fx)
    requires
        fx_wf(cosine),
        fx_wf(ratio),
    ensures
        r == spec_reflectance(cosine, ratio),
        fx_wf(r),
{
    let one = Fx { raw: FX_SCALE };
    let r0_base = one.sub(ratio).div(one.add(ratio));
    let r0 = r0_base.mul(r0_base);
    let m = one.sub(cosine);
    let m2 = m.mul(m);
    let m4 = m2.mul(m2);
    let m5 = m4.mul(m);
    r0.add(one.sub(r0).mul(m5))
}

impl Material {
    /// Builds a diffuse material.
    pub fn lambertian(albedo: Color) -> (m: Material)
        ensures
            m == (Material::Lambertian { albedo }),
    {
        Material::Lambertian { albedo }
    }

    /// Builds a reflective material with a fuzz radius.
    pub fn metal(albedo: Color, fuzz: Fx) -> (m: Material)
        ensures
            m == (Material::Metal { albedo, fuzz }),
    {
        Material::Metal { albedo, fuzz }
    }

    /// Builds a refractive material.
    pub fn dielectric(refractive_index: Fx) -> (m: Material)
        ensures
            m == (Material::Dielectric { refractive_index }),
    {
        Material::Dielectric { refractive_index }
    }

    /// Given an incoming ray and a hit, either absorbs the ray (`None`)
    /// or produces an attenuation color and the scattered ray.
    ///
    /// A diffuse surface always scatters its albedo from the hit point.
    /// A metallic surface scatters the fuzzed specular reflection, and
    /// absorbs the ray when that direction would leave into the
    /// surface; with zero fuzz the outgoing direction is exactly the
    /// specular reflection of the unit incoming direction. A dielectric
    /// always scatters an untinted ray from the hit point, and its
    /// direction is the specular reflection or the Snell refraction of
    /// the unit incoming direction.
    pub fn scatter(&self, r_in: &Ray, rec: &HitRecord, s: &mut Sampler) -> (out: Option<
        (Color, Ray),
    >)
        requires
            mat_wf(*self),
            ray_wf(*r_in),
            rec_wf(*rec),
        ensures
            *self matches Material::Lambertian { albedo } ==> out matches Some(p) && p.0 == albedo
                && p.1.orig == rec.p && ray_wf(p.1) && color_wf(p.0) && exists|u: Vec3|
                {
                    &&& v_wf(u)
                    &&& #[trigger] spec_near_unit(u)
                    &&& (p.1.dir == spec_vadd(rec.normal, u) || p.1.dir == rec.normal)
                },
            *self matches Material::Metal { albedo, fuzz } ==> {
                &&& (out matches Some(p) ==> p.0 == albedo && p.1.orig == rec.p && spec_dot(
                    p.1.dir,
                    rec.normal,
                ).raw > 0 && ray_wf(p.1) && color_wf(p.0) && exists|u: Vec3|
                {
                    &&& v_wf(u)
                    &&& #[trigger] spec_near_unit(u)
                    &&& p.1.dir == spec_vadd(
                        spec_reflect(spec_unit(r_in.dir), rec.normal),
                        spec_vscale(u, fuzz),
                    )
                })
                &&& (fuzz.raw == 0 && spec_dot(
                    spec_reflect(spec_unit(r_in.dir), rec.normal),
                    rec.normal,
                ).raw > 0 ==> out == Some(
                    (
                        albedo,
                        Ray { orig: rec.p, dir: spec_reflect(spec_unit(r_in.dir), rec.normal) },
                    ),
                ))
                &&& (fuzz.raw == 0 && spec_dot(
                    spec_reflect(spec_unit(r_in.dir), rec.normal),
                    rec.normal,
                ).raw <= 0 ==> out is None)
            },
            *self matches Material::Dielectric { refractive_index } ==> out matches Some(p) && p.0
                == Color::spec_white() && p.1.orig == rec.p && ray_wf(p.1) && color_wf(p.0) && (
            p.1.dir == spec_reflect(spec_unit(r_in.dir), rec.normal) || p.1.dir == spec_refract(
                spec_unit(r_in.dir),
                rec.normal,
                spec_refraction_ratio(refractive_index, rec.front_face),
            )),
    {
        match self {
            Material::Lambertian { albedo } => {
                let rnd = random_unit_vector(s);
                let mut direction = rec.normal.add(rnd);
                if direction.near_zero() {
                    direction = rec.normal;
                }
                proof {
                    assert(spec_near_unit(rnd) && (direction == spec_vadd(rec.normal, rnd)
                        || direction == rec.normal));
                }
                Some((*albedo, Ray::new(rec.p, direction)))
            },
            Material::Metal { albedo, fuzz } => {
                let reflected = reflect(r_in.direction().unit_vector(), rec.normal);
                let rnd = random_unit_vector(s);
                let fuzzed = reflected.add(rnd.scale(*fuzz));
                proof {
                    if fuzz.raw == 0 {
                        lemma_vscale_by_zero(rnd, *fuzz);
                        lemma_vadd_zero(reflected);
                    }
                }
                let d = fuzzed.dot(rec.normal);
                if d.raw > 0 {
                    proof {
                        assert(spec_near_unit(rnd) && fuzzed == spec_vadd(
                            spec_reflect(spec_unit(r_in.dir), rec.normal),
                            spec_vscale(rnd, *fuzz),
                        ));
                    }
                    Some((*albedo, Ray::new(rec.p, fuzzed)))
                } else {
                    None
                }
            },
            Material::Dielectric { refractive_index } => {
                let one = Fx { raw: FX_SCALE };
                let ratio = if rec.front_face {
                    *refractive_index
                } else {
                    one.div(*refractive_index)
                };
                let unit_direction = r_in.direction().unit_vector();
                let cos_theta = unit_direction.neg().dot(rec.normal).min(one);
                let sin_theta = one.sub(cos_theta.mul(cos_theta)).sqrt();

                let cannot_refract = ratio.mul(sin_theta).raw > FX_SCALE;
                let reflect_prob = reflectance(cos_theta, ratio);
                let draw = random_double(s);
                let direction = if cannot_refract || reflect_prob.raw > draw.raw {
                    reflect(unit_direction, rec.normal)
                } else {
                    refract(unit_direction, rec.normal, ratio)
                };
                Some((Color::white(), Ray::new(rec.p, direction)))
            },
        }
    }
}

} // verus!
