use ray_tracer::camera::{
    commit_tile, cos_approx, degrees_to_radians, sin_approx, tan_approx, tile_bounds, Camera,
    CameraError, Tile,
};
use ray_tracer::color::Color;
use ray_tracer::fixed::{Fx, FX_SCALE};
use ray_tracer::hittable::Hittable;
use ray_tracer::hittable_list::HittableList;
use ray_tracer::material::Material;
use ray_tracer::ray::Ray;
use ray_tracer::sampler::Sampler;
use ray_tracer::sphere::Sphere;
use ray_tracer::vec3::Vec3;

fn v(x: i64, y: i64, z: i64) -> Vec3 {
    Vec3::new(Fx::from_int(x), Fx::from_int(y), Fx::from_int(z))
}

// 16:9, as a fixed-point ratio
fn wide_aspect() -> Fx {
    Fx::from_raw(116508)
}

fn basic_camera(width: usize, samples: usize, depth: usize) -> Camera {
    Camera::new(
        wide_aspect(),
        width,
        samples,
        depth,
        Fx::from_int(20),
        v(13, 2, 3),
        v(0, 0, 0),
        v(0, 1, 0),
        Fx::zero(),
        Fx::from_int(10),
    )
    .expect("well-formed configuration")
}

fn sky_color_of(r: &Ray) -> Color {
    let one = Fx::one();
    let half = Fx::from_raw(FX_SCALE / 2);
    let unit = r.direction().unit_vector();
    let a = unit.y().add(one).mul(half);
    let white = Color::white();
    let blue = Color::new(
        Fx::from_raw(FX_SCALE / 2),
        Fx::from_raw(45875),
        Fx::from_raw(FX_SCALE),
    );
    white.scale(one.sub(a)).add(blue.scale(a))
}

#[test]
fn construction_rejects_each_malformed_config() {
    let ok = |aspect: Fx, w: usize, spp: usize, vfov: Fx| {
        Camera::new(
            aspect,
            w,
            spp,
            8,
            vfov,
            v(0, 0, 0),
            v(0, 0, -1),
            v(0, 1, 0),
            Fx::zero(),
            Fx::from_int(10),
        )
    };
    assert!(matches!(
        ok(Fx::zero(), 100, 1, Fx::from_int(20)),
        Err(CameraError::NonPositiveAspectRatio)
    ));
    assert!(matches!(
        ok(Fx::from_int(-2), 100, 1, Fx::from_int(20)),
        Err(CameraError::NonPositiveAspectRatio)
    ));
    assert!(matches!(
        ok(wide_aspect(), 0, 1, Fx::from_int(20)),
        Err(CameraError::ZeroImageWidth)
    ));
    assert!(matches!(
        ok(wide_aspect(), 100_001, 1, Fx::from_int(20)),
        Err(CameraError::ImageTooWide)
    ));
    assert!(matches!(
        ok(wide_aspect(), 100, 0, Fx::from_int(20)),
        Err(CameraError::ZeroSamplesPerPixel)
    ));
    assert!(matches!(
        ok(wide_aspect(), 100, 1_000_001, Fx::from_int(20)),
        Err(CameraError::TooManySamples)
    ));
    assert!(matches!(
        ok(wide_aspect(), 100, 1, Fx::zero()),
        Err(CameraError::FieldOfViewOutOfRange)
    ));
    assert!(matches!(
        ok(wide_aspect(), 100, 1, Fx::from_int(180)),
        Err(CameraError::FieldOfViewOutOfRange)
    ));
    // a tiny aspect ratio blows the derived height past the pixel cap
    assert!(matches!(
        ok(Fx::from_raw(1), 100_000, 1, Fx::from_int(20)),
        Err(CameraError::TooManyPixels)
    ));
    assert!(ok(wide_aspect(), 100, 1, Fx::from_int(20)).is_ok());
}

#[test]
fn derived_height_follows_aspect_ratio() {
    let cam = basic_camera(400, 1, 8);
    assert_eq!(cam.image_height, 225);
    assert_eq!(cam.image_width, 400);
    let narrow = Camera::new(
        Fx::from_int(100),
        50,
        1,
        8,
        Fx::from_int(20),
        v(0, 0, 0),
        v(0, 0, -1),
        v(0, 1, 0),
        Fx::zero(),
        Fx::from_int(10),
    )
    .expect("valid");
    // 50 / 100 truncates to 0 and is lifted to one row
    assert_eq!(narrow.image_height, 1);
    // the per-sample scale is 1/samples
    let cam4 = basic_camera(400, 4, 8);
    assert_eq!(cam4.pixel_samples_scale.raw, FX_SCALE / 4);
}

#[test]
fn zero_depth_yields_black() {
    let cam = basic_camera(32, 1, 8);
    let world = Hittable::List(HittableList::new());
    let mut s = Sampler::from_seed(11);
    let r = Ray::new(v(0, 0, 0), v(0, 1, 0));
    let c = cam.ray_color(&r, 0, &world, &mut s);
    assert_eq!(c, Color::black());
}

#[test]
fn missed_rays_paint_the_background_gradient() {
    let cam = basic_camera(32, 1, 8);
    let empty = Hittable::List(HittableList::new());
    let mut s = Sampler::from_seed(11);

    // straight up: a == 1, pure sky blue
    let up = Ray::new(v(0, 0, 0), v(0, 1, 0));
    let c = cam.ray_color(&up, 8, &empty, &mut s);
    assert_eq!(
        c,
        Color::new(Fx::from_raw(FX_SCALE / 2), Fx::from_raw(45875), Fx::one())
    );
    // straight down: a == 0, pure white
    let down = Ray::new(v(0, 0, 0), v(0, -1, 0));
    let c = cam.ray_color(&down, 8, &empty, &mut s);
    assert_eq!(c, Color::white());
    // an oblique ray matches the gradient formula
    let oblique = Ray::new(v(1, 2, 3), v(4, 1, -2));
    let c = cam.ray_color(&oblique, 8, &empty, &mut s);
    assert_eq!(c, sky_color_of(&oblique));
    // and the gradient ignores scene contents the ray misses
    let mut far_scene = HittableList::new();
    far_scene.add(Hittable::Sphere(Sphere::new(
        v(0, -50, 0),
        Fx::one(),
        Material::lambertian(Color::white()),
    )));
    let c2 = cam.ray_color(&oblique, 8, &Hittable::List(far_scene), &mut s);
    assert_eq!(c2, sky_color_of(&oblique));
}

#[test]
fn tiles_partition_every_pixel_exactly_once() {
    let (width, height) = (37usize, 11usize);
    let (parts_x, parts_y) = (5usize, 4usize);
    let mut covered = vec![0u32; width * height];
    for tj in 0..parts_y {
        for ti in 0..parts_x {
            let t: Tile = tile_bounds(ti, tj, parts_x, parts_y, width, height);
            assert!(t.x_min <= t.x_max && t.x_max <= width);
            assert!(t.y_min <= t.y_max && t.y_max <= height);
            for y in t.y_min..t.y_max {
                for x in t.x_min..t.x_max {
                    covered[y * width + x] += 1;
                }
            }
        }
    }
    assert!(covered.iter().all(|&c| c == 1));
}

#[test]
fn tiles_cover_image_smaller_than_grid() {
    // fewer pixels than grid cells: the excess tiles are empty
    let (width, height) = (3usize, 2usize);
    let mut covered = vec![0u32; width * height];
    for tj in 0..20 {
        for ti in 0..20 {
            let t = tile_bounds(ti, tj, 20, 20, width, height);
            for y in t.y_min..t.y_max {
                for x in t.x_min..t.x_max {
                    covered[y * width + x] += 1;
                }
            }
        }
    }
    assert!(covered.iter().all(|&c| c == 1));
}

#[test]
fn render_fills_the_whole_buffer_and_top_row_is_sky() {
    // one ground sphere and one glass sphere, camera looking down at
    // them from afar: the top rows see only sky
    let mut world = HittableList::new();
    let ground = Material::lambertian(Color::new(
        Fx::from_raw(FX_SCALE / 2),
        Fx::from_raw(FX_SCALE / 2),
        Fx::from_raw(FX_SCALE / 2),
    ));
    world.add(Hittable::Sphere(Sphere::new(
        v(0, -1000, 0),
        Fx::from_int(1000),
        ground,
    )));
    world.add(Hittable::Sphere(Sphere::new(
        v(0, 1, 0),
        Fx::one(),
        Material::dielectric(Fx::from_raw(3 * FX_SCALE / 2)),
    )));
    let world = Hittable::List(world);

    let cam = basic_camera(32, 1, 6);
    assert_eq!(cam.image_height, 18);

    let seed = 2024u64;
    let mut s = Sampler::from_seed(seed);
    let pixels = cam.render(&world, &mut s);
    assert_eq!(pixels.len(), cam.image_width * cam.image_height);

    // replay the render's sampling order with an identically seeded
    // source: the image is reproducible, and the top row's rays miss
    // everything, so those pixels equal the gradient of their own ray
    let mut replay = Sampler::from_seed(seed);
    for y in 0..cam.image_height {
        for x in 0..cam.image_width {
            let ray = cam.get_ray(x, y, &mut replay);
            let c = cam.ray_color(&ray, cam.max_depth, &world, &mut replay);
            let scaled = c.scale(cam.pixel_samples_scale);
            assert_eq!(pixels[y * cam.image_width + x], scaled);
            if y == 0 {
                assert_eq!(scaled, sky_color_of(&ray));
                assert_ne!(scaled, Color::black());
            }
        }
    }
}

#[test]
fn bounce_budget_terminates_in_an_enclosing_diffuse_scene() {
    // the camera sits inside a diffuse sphere, so every ray scatters at
    // every bounce; the integration still returns within the budget
    let mut world = HittableList::new();
    world.add(Hittable::Sphere(Sphere::new(
        v(0, 0, 0),
        Fx::from_int(100),
        Material::lambertian(Color::new(
            Fx::from_raw(FX_SCALE / 2),
            Fx::from_raw(FX_SCALE / 2),
            Fx::from_raw(FX_SCALE / 2),
        )),
    )));
    let world = Hittable::List(world);
    let cam = basic_camera(32, 1, 8);
    let mut s = Sampler::from_seed(17);
    for depth in [1usize, 8, 64] {
        let r = Ray::new(v(0, 0, 0), v(1, 2, 3));
        let _ = cam.ray_color(&r, depth, &world, &mut s);
    }
}

#[test]
fn render_tile_buffer_has_tile_dimensions() {
    let cam = basic_camera(32, 1, 2);
    let world = Hittable::List(HittableList::new());
    let mut s = Sampler::from_seed(9);
    let t = Tile { x_min: 3, x_max: 9, y_min: 2, y_max: 7 };
    let pixels = cam.render_tile(&world, t, &mut s);
    assert_eq!(pixels.len(), 30);
}

#[test]
fn error_descriptions_name_the_fault() {
    assert!(CameraError::ZeroSamplesPerPixel.description().contains("samples"));
    assert!(CameraError::NonPositiveAspectRatio.description().contains("aspect"));
    assert!(CameraError::FieldOfViewOutOfRange.description().contains("field of view"));
}

#[test]
fn tiled_render_fills_every_slot() {
    let cam = basic_camera(32, 1, 4);
    let world = Hittable::List(HittableList::new());
    let mut s = Sampler::from_seed(33);
    let pixels = cam.render_tiled(&world, &mut s);
    assert_eq!(pixels.len(), cam.image_width * cam.image_height);
    // an empty scene paints the gradient everywhere: nothing stays black
    assert!(pixels.iter().all(|p| *p != Color::black()));
}

#[test]
fn committing_a_tile_writes_its_slots_and_no_others() {
    let width = 4usize;
    let mut buffer: Vec<Option<Color>> = vec![None; width * 3];
    let tile = Tile { x_min: 1, x_max: 3, y_min: 0, y_max: 2 };
    let vals = vec![
        Color::new(Fx::from_int(1), Fx::zero(), Fx::zero()),
        Color::new(Fx::from_int(2), Fx::zero(), Fx::zero()),
        Color::new(Fx::from_int(3), Fx::zero(), Fx::zero()),
        Color::new(Fx::from_int(4), Fx::zero(), Fx::zero()),
    ];
    commit_tile(&mut buffer, width, tile, &vals);
    for y in 0..3 {
        for x in 0..width {
            let slot = buffer[y * width + x];
            if (1..3).contains(&x) && y < 2 {
                assert_eq!(slot, Some(vals[y * 2 + (x - 1)]));
            } else {
                assert_eq!(slot, None);
            }
        }
    }
}

#[test]
fn shared_list_starts_empty() {
    let shared = HittableList::new_shared();
    let r = Ray::new(v(0, 0, 0), v(0, 0, -1));
    let t = ray_tracer::interval::Interval::with_bounds(
        Fx::from_raw(66),
        Fx::from_raw(ray_tracer::fixed::FX_MAX_RAW),
    );
    assert!(shared.hit(&r, t).is_none());
}

#[test]
fn trig_approximations_hit_known_angles() {
    // pi in fixed point is 205887/65536
    assert_eq!(degrees_to_radians(Fx::from_int(180)).raw, 205887);
    assert_eq!(sin_approx(Fx::zero()).raw, 0);
    assert_eq!(cos_approx(Fx::zero()).raw, FX_SCALE);
    // tan(45 degrees) is 1, up to the polynomial truncation
    let t = tan_approx(degrees_to_radians(Fx::from_int(45)));
    assert!((t.raw - FX_SCALE).abs() < 700, "tan(45deg) raw was {}", t.raw);
    // tan grows past 1 beyond 45 degrees
    let steep = tan_approx(degrees_to_radians(Fx::from_int(60)));
    assert!(steep.raw > t.raw);
}

#[test]
fn tile_assembly_leaves_no_slot_at_its_default() {
    let cam = basic_camera(32, 1, 2);
    let world = Hittable::List(HittableList::new());
    let mut s = Sampler::from_seed(91);
    let mut buffer: Vec<Option<Color>> = vec![None; cam.image_width * cam.image_height];
    cam.render_tiles(&world, &mut s, &mut buffer);
    assert!(buffer.iter().all(|c| c.is_some()));
}
