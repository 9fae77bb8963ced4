use ray_tracer::color::Color;
use ray_tracer::fixed::{Fx, FX_MAX_RAW, FX_SCALE};
use ray_tracer::hittable::{HitRecord, Hittable};
use ray_tracer::hittable_list::HittableList;
use ray_tracer::interval::Interval;
use ray_tracer::material::Material;
use ray_tracer::ray::Ray;
use ray_tracer::sphere::Sphere;
use ray_tracer::sampler::{random_double_in_range, Sampler};
use ray_tracer::vec3::{cross, random_on_hemisphere, random_unit_vector, reflect, Vec3};

fn v(x: i64, y: i64, z: i64) -> Vec3 {
    Vec3::new(Fx::from_int(x), Fx::from_int(y), Fx::from_int(z))
}

fn gray() -> Material {
    Material::lambertian(Color::new(
        Fx::from_raw(FX_SCALE / 2),
        Fx::from_raw(FX_SCALE / 2),
        Fx::from_raw(FX_SCALE / 2),
    ))
}

fn shadow_interval() -> Interval {
    Interval::with_bounds(Fx::from_raw(66), Fx::from_raw(FX_MAX_RAW))
}

#[test]
fn vector_algebra_is_exact() {
    let a = v(1, 2, 3);
    let b = v(4, -5, 6);
    assert_eq!(a.add(b), v(5, -3, 9));
    assert_eq!(a.sub(b), v(-3, 7, -3));
    assert_eq!(a.neg(), v(-1, -2, -3));
    assert_eq!(a.mul(b), v(4, -10, 18));
    assert_eq!(a.scale(Fx::from_int(2)), v(2, 4, 6));
    assert_eq!(a.dot(b).raw, 12 * FX_SCALE);
    assert_eq!(cross(v(1, 0, 0), v(0, 1, 0)), v(0, 0, 1));
    assert_eq!(cross(v(0, 1, 0), v(1, 0, 0)), v(0, 0, -1));
    assert_eq!(a.length_squared().raw, 14 * FX_SCALE);
    assert_eq!(v(3, 4, 0).length().raw, 5 * FX_SCALE);
    assert_eq!(v(0, -9, 0).unit_vector(), v(0, -1, 0));
}

#[test]
fn reflection_formula() {
    // reflect((1,-1,0), (0,1,0)) == (1,1,0)
    assert_eq!(reflect(v(1, -1, 0), v(0, 1, 0)), v(1, 1, 0));
    // reflecting twice about the same normal restores the vector
    let w = v(3, -2, 5);
    let n = v(0, 1, 0);
    assert_eq!(reflect(reflect(w, n), n), w);
}

#[test]
fn ray_evaluation() {
    let r = Ray::new(v(1, 0, 0), v(0, 2, 0));
    assert_eq!(r.origin(), v(1, 0, 0));
    assert_eq!(r.direction(), v(0, 2, 0));
    assert_eq!(r.at(Fx::from_int(3)), v(1, 6, 0));
}

#[test]
fn sphere_hit_prefers_near_root() {
    let s = Sphere::new(v(0, 0, -3), Fx::one(), gray());
    let r = Ray::new(v(0, 0, 0), v(0, 0, -1));
    let rec = s.hit(&r, shadow_interval()).expect("ray through center must hit");
    // roots are 2 and 4; the smaller is taken
    assert_eq!(rec.t.raw, 2 * FX_SCALE);
    assert_eq!(rec.p, v(0, 0, -2));
    assert_eq!(rec.normal, v(0, 0, 1));
    assert!(rec.front_face);
}

#[test]
fn sphere_negative_discriminant_misses() {
    let s = Sphere::new(v(0, 5, -3), Fx::one(), gray());
    let r = Ray::new(v(0, 0, 0), v(0, 0, -1));
    assert!(s.hit(&r, shadow_interval()).is_none());
}

#[test]
fn sphere_behind_origin_misses() {
    let s = Sphere::new(v(0, 0, 3), Fx::one(), gray());
    let r = Ray::new(v(0, 0, 0), v(0, 0, -1));
    // both roots are negative, outside (0.001, +max)
    assert!(s.hit(&r, shadow_interval()).is_none());
}

#[test]
fn sphere_interval_excludes_far_root() {
    let s = Sphere::new(v(0, 0, -3), Fx::one(), gray());
    let r = Ray::new(v(0, 0, 0), v(0, 0, -1));
    // only the far root (4) lies inside (3, max): it is taken
    let t_int = Interval::with_bounds(Fx::from_int(3), Fx::from_raw(FX_MAX_RAW));
    let rec = s.hit(&r, t_int).expect("far root inside range");
    assert_eq!(rec.t.raw, 4 * FX_SCALE);
    // the normal of an exit hit is flipped to oppose the ray
    assert!(!rec.front_face);
    assert_eq!(rec.normal, v(0, 0, 1));
    // neither root lies inside (5, max)
    let t_far = Interval::with_bounds(Fx::from_int(5), Fx::from_raw(FX_MAX_RAW));
    assert!(s.hit(&r, t_far).is_none());
}

#[test]
fn front_face_flag_tracks_direction_sign() {
    let r = Ray::new(v(0, 0, 0), v(0, 0, -1));
    let mut rec = HitRecord {
        p: v(0, 0, -2),
        normal: v(0, 0, 0),
        mat: gray(),
        t: Fx::from_int(2),
        front_face: false,
    };
    // outward normal opposing the ray: front face, kept as is
    rec.set_face_normal(&r, v(0, 0, 1));
    assert!(rec.front_face);
    assert_eq!(rec.normal, v(0, 0, 1));
    // outward normal along the ray: back face, flipped
    rec.set_face_normal(&r, v(0, 0, -1));
    assert!(!rec.front_face);
    assert_eq!(rec.normal, v(0, 0, 1));
    // either way the stored normal opposes the ray
    assert!(rec.normal.dot(r.direction()).raw <= 0);
}

#[test]
fn list_hit_returns_nearest_in_any_order() {
    let near = || Hittable::Sphere(Sphere::new(v(0, 0, -3), Fx::one(), gray()));
    let far = || Hittable::Sphere(Sphere::new(v(0, 0, -6), Fx::one(), gray()));
    let r = Ray::new(v(0, 0, 0), v(0, 0, -1));

    let mut a = HittableList::new();
    a.add(near());
    a.add(far());
    let mut b = HittableList::new();
    b.add(far());
    b.add(near());

    let ra = a.hit(&r, shadow_interval()).expect("hit");
    let rb = b.hit(&r, shadow_interval()).expect("hit");
    assert_eq!(ra.t.raw, 2 * FX_SCALE);
    assert_eq!(rb.t.raw, 2 * FX_SCALE);
    assert_eq!(ra.p, rb.p);
    assert_eq!(ra.normal, rb.normal);

    // restricting the range past the near sphere exposes the far one;
    // its entry root 5 sits on the open bound, so its exit root is taken
    let t_int = Interval::with_bounds(Fx::from_int(5), Fx::from_raw(FX_MAX_RAW));
    let rf = a.hit(&r, t_int).expect("far sphere");
    assert_eq!(rf.t.raw, 7 * FX_SCALE);
}

#[test]
fn empty_list_and_clear() {
    let mut l = HittableList::new();
    let r = Ray::new(v(0, 0, 0), v(0, 0, -1));
    assert!(l.hit(&r, shadow_interval()).is_none());
    l.add(Hittable::Sphere(Sphere::new(v(0, 0, -3), Fx::one(), gray())));
    assert!(l.hit(&r, shadow_interval()).is_some());
    l.clear();
    assert!(l.hit(&r, shadow_interval()).is_none());
}

#[test]
fn nested_list_hits_like_flat_list() {
    let near = Hittable::Sphere(Sphere::new(v(0, 0, -3), Fx::one(), gray()));
    let far = Hittable::Sphere(Sphere::new(v(0, 0, -6), Fx::one(), gray()));
    let inner = HittableList::with_object(near);
    let mut outer = HittableList::new();
    outer.add(far);
    outer.add(Hittable::List(inner));
    let r = Ray::new(v(0, 0, 0), v(0, 0, -1));
    let rec = outer.hit(&r, shadow_interval()).expect("hit");
    assert_eq!(rec.t.raw, 2 * FX_SCALE);
}

#[test]
fn negative_radius_is_lifted_to_zero() {
    let s = Sphere::new(v(0, 0, -3), Fx::from_int(-2), gray());
    assert_eq!(s.radius.raw, 0);
}

#[test]
fn random_unit_vectors_have_near_unit_length() {
    let mut s = Sampler::from_seed(77);
    for _ in 0..200 {
        let u = random_unit_vector(&mut s);
        let lsq = u.length_squared().raw;
        assert!((lsq - FX_SCALE).abs() <= 655, "length_squared raw was {}", lsq);
    }
}

#[test]
fn hemisphere_directions_are_near_unit_and_point_outward() {
    let mut s = Sampler::from_seed(78);
    let normal = v(0, 1, 0);
    for _ in 0..200 {
        let u = random_on_hemisphere(&mut s, normal);
        let lsq = u.length_squared().raw;
        assert!((lsq - FX_SCALE).abs() <= 655);
        assert!(u.dot(normal).raw >= 0);
    }
}

#[test]
fn ranged_draws_stay_strictly_below_the_upper_bound() {
    let mut s = Sampler::from_seed(79);
    let lo = Fx::from_int(-1);
    let hi = Fx::from_int(2);
    for _ in 0..500 {
        let u = random_double_in_range(&mut s, lo, hi);
        assert!(lo.raw <= u.raw && u.raw < hi.raw);
    }
}

#[test]
fn oblique_sphere_hit_normal_is_near_unit() {
    let s = Sphere::new(v(0, 0, -3), Fx::one(), gray());
    let r = Ray::new(v(0, 0, 0), Vec3::new(Fx::from_raw(13107), Fx::from_raw(-9830), Fx::from_int(-1)));
    let rec = s.hit(&r, shadow_interval()).expect("oblique ray hits");
    let lsq = rec.normal.length_squared().raw;
    assert!((lsq - FX_SCALE).abs() <= 700, "normal length_squared raw was {}", lsq);
}
