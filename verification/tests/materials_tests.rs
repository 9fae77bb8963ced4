use ray_tracer::color::Color;
use ray_tracer::fixed::{Fx, FX_SCALE};
use ray_tracer::hittable::HitRecord;
use ray_tracer::material::{reflectance, Material};
use ray_tracer::ray::Ray;
use ray_tracer::sampler::Sampler;
use ray_tracer::vec3::{reflect, Vec3};

fn v(x: i64, y: i64, z: i64) -> Vec3 {
    Vec3::new(Fx::from_int(x), Fx::from_int(y), Fx::from_int(z))
}

fn hit_toward_plus_z(mat: Material) -> (Ray, HitRecord) {
    let r = Ray::new(v(0, 0, 0), v(0, 0, -1));
    let rec = HitRecord {
        p: v(0, 0, -2),
        normal: v(0, 0, 1),
        mat,
        t: Fx::from_int(2),
        front_face: true,
    };
    (r, rec)
}

#[test]
fn metal_with_zero_fuzz_reflects_exactly() {
    let albedo = Color::new(
        Fx::from_raw(4 * FX_SCALE / 5),
        Fx::from_raw(3 * FX_SCALE / 5),
        Fx::from_raw(FX_SCALE / 5),
    );
    let m = Material::metal(albedo, Fx::zero());
    let (r, rec) = hit_toward_plus_z(m);
    let mut s = Sampler::from_seed(1);
    let (att, out) = m.scatter(&r, &rec, &mut s).expect("zero-fuzz metal reflects here");
    assert_eq!(att, albedo);
    assert_eq!(out.origin(), rec.p);
    // the outgoing direction is exactly the ideal specular reflection
    let ideal = reflect(r.direction().unit_vector(), rec.normal);
    assert_eq!(out.direction(), ideal);
    assert_eq!(out.direction(), v(0, 0, 1));
}

#[test]
fn metal_absorbs_grazing_reflection_into_surface() {
    let m = Material::metal(Color::white(), Fx::zero());
    // the stored normal points along +z but the ray leaves along +z too,
    // so the reflection goes into the surface and the ray is absorbed
    let r = Ray::new(v(0, 0, -4), v(0, 0, 1));
    let rec = HitRecord {
        p: v(0, 0, -2),
        normal: v(0, 0, 1),
        mat: m,
        t: Fx::from_int(2),
        front_face: false,
    };
    let mut s = Sampler::from_seed(1);
    assert!(m.scatter(&r, &rec, &mut s).is_none());
}

#[test]
fn lambertian_always_scatters_its_albedo() {
    let albedo = Color::new(
        Fx::from_raw(FX_SCALE / 10),
        Fx::from_raw(2 * FX_SCALE / 10),
        Fx::from_raw(5 * FX_SCALE / 10),
    );
    let m = Material::lambertian(albedo);
    let (r, rec) = hit_toward_plus_z(m);
    let mut s = Sampler::from_seed(3);
    for _ in 0..50 {
        let (att, out) = m.scatter(&r, &rec, &mut s).expect("diffuse always scatters");
        assert_eq!(att, albedo);
        assert_eq!(out.origin(), rec.p);
    }
}

#[test]
fn dielectric_always_scatters_untinted() {
    let m = Material::dielectric(Fx::from_raw(3 * FX_SCALE / 2));
    let (r, rec) = hit_toward_plus_z(m);
    let mut s = Sampler::from_seed(5);
    let unit_in = r.direction().unit_vector();
    let reflected = reflect(unit_in, rec.normal);
    for _ in 0..50 {
        let (att, out) = m.scatter(&r, &rec, &mut s).expect("dielectric always scatters");
        assert_eq!(att, Color::white());
        assert_eq!(out.origin(), rec.p);
        // at normal incidence the ray either reflects straight back or
        // passes straight through
        assert!(out.direction() == reflected || out.direction() == unit_in);
    }
}

#[test]
fn schlick_reflectance_at_normal_incidence() {
    // cos = 1: the (1-cos)^5 term vanishes and r0 remains.
    // ratio 3 gives r0 = ((1-3)/(1+3))^2 = 1/4.
    let r = reflectance(Fx::one(), Fx::from_int(3));
    assert_eq!(r.raw, FX_SCALE / 4);
    // cos = 0: reflectance is r0 + (1 - r0) = 1
    let full = reflectance(Fx::zero(), Fx::from_int(3));
    assert_eq!(full.raw, FX_SCALE);
}
