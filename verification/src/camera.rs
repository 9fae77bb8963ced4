//! The camera: projection setup derived once from the configuration,
//! per-pixel jittered ray generation, recursive radiance integration,
//! and the tile grid the renderer is parallelized over.
use vstd::prelude::*;

use crate::color::{color_wf, spec_cadd, spec_cscale, Color};
use crate::fixed::{
    fx_add_raw, fx_div_raw, fx_mul_raw, fx_sub_raw, fx_wf, spec_fx, tdiv, Fx, FX_MAX_RAW, FX_SCALE,
};
use crate::hittable::{hittable_wf, spec_hit, Hittable};
use crate::interval::Interval;
use crate::ray::{ray_wf, Ray};
use crate::sampler::{random_double, Sampler};
use crate::vec3::{
    cross, random_in_unit_disk, spec_cross, spec_len_sq, spec_unit, spec_vadd, spec_vdiv,
    spec_vneg, spec_vscale, spec_vsub, v_wf, Point3, Vec3,
};

verus! {

/// The circle constant, as a raw fixed-point payload.
pub const PI_RAW: i128 = 205887;

/// Raw payload of the lower bound of every radiance query: a small
/// offset that keeps a scattered ray from re-hitting its own origin.
pub const SHADOW_ACNE_RAW: i128 = 66;

/// Number of tile rows the image is partitioned into.
pub const HEIGHT_PARTITION: usize = 20;

/// Number of tile columns the image is partitioned into.
pub const WIDTH_PARTITION: usize = 20;

/// Ceiling on concurrently in-flight tiles.
pub const THREAD_LIMIT: usize = 16;

/// Largest accepted image width.
pub const MAX_IMAGE_WIDTH: usize = 100_000;

/// Largest accepted total pixel count.
pub const MAX_PIXELS: usize = 100_000_000;

/// Largest accepted samples-per-pixel count.
pub const MAX_SAMPLES: usize = 1_000_000;

/// Degrees-to-radians conversion: `d * pi / 180`.
pub open spec fn spec_degrees_to_radians(d: Fx) -> Fx {
    spec_fx(fx_div_raw(fx_mul_raw(d.raw as int, PI_RAW as int), 180 * FX_SCALE as int))
}

/// Degrees-to-radians conversion.
pub fn degrees_to_radians(degrees: Fx) -> (r: Fx)
    requires
        fx_wf(degrees),
    ensures
        r == spec_degrees_to_radians(degrees),
        fx_wf(r),
{
    degrees.mul(Fx { raw: PI_RAW }).div(Fx { raw: 180 * FX_SCALE })
}

/// Sine by its order-seven Taylor polynomial
/// `x - x^3/6 + x^5/120 - x^7/5040`, over the fixed-point operations.
pub open spec fn spec_sin(x: Fx) -> Fx {
    let x2 = fx_mul_raw(x.raw as int, x.raw as int);
    let x3 = fx_mul_raw(x2, x.raw as int);
    let x5 = fx_mul_raw(fx_mul_raw(x3, x.raw as int), x.raw as int);
    let x7 = fx_mul_raw(fx_mul_raw(x5, x.raw as int), x.raw as int);
    spec_fx(
        fx_sub_raw(
            fx_add_raw(
                fx_sub_raw(x.raw as int, fx_div_raw(x3, 6 * FX_SCALE as int)),
                fx_div_raw(x5, 120 * FX_SCALE as int),
            ),
            fx_div_raw(x7, 5040 * FX_SCALE as int),
        ),
    )
}

/// Cosine by its order-six Taylor polynomial
/// `1 - x^2/2 + x^4/24 - x^6/720`, over the fixed-point operations.
pub open spec fn spec_cos(x: Fx) -> Fx {
    let x2 = fx_mul_raw(x.raw as int, x.raw as int);
    let x4 = fx_mul_raw(x2, x2);
    let x6 = fx_mul_raw(x4, x2);
    spec_fx(
        fx_sub_raw(
            fx_add_raw(
                fx_sub_raw(FX_SCALE as int, fx_div_raw(x2, 2 * FX_SCALE as int)),
                fx_div_raw(x4, 24 * FX_SCALE as int),
            ),
            fx_div_raw(x6, 720 * FX_SCALE as int),
        ),
    )
}

/// Tangent of an angle in radians, as the quotient of the two
/// polynomial approximations.
pub open spec fn spec_tan(x: Fx) -> Fx {
    spec_fx(fx_div_raw(spec_sin(x).raw as int, spec_cos(x).raw as int))
}

/// Sine approximation.
pub fn sin_approx(x: Fx) -> (r: Fx)
    requires
        fx_wf(x),
    ensures
        r == spec_sin(x),
        fx_wf(r),
{
    let x2 = x.mul(x);
    let x3 = x2.mul(x);
    let x5 = x3.mul(x).mul(x);
    let x7 = x5.mul(x).mul(x);
    x.sub(x3.div(Fx { raw: 6 * FX_SCALE })).add(x5.div(Fx { raw: 120 * FX_SCALE })).sub(
        x7.div(Fx { raw: 5040 * FX_SCALE }),
    )
}

/// Cosine approximation.
pub fn cos_approx(x: Fx) -> (r: Fx)
    requires
        fx_wf(x),
    ensures
        r == spec_cos(x),
        fx_wf(r),
{
    let x2 = x.mul(x);
    let x4 = x2.mul(x2);
    let x6 = x4.mul(x2);
    Fx { raw: FX_SCALE }.sub(x2.div(Fx { raw: 2 * FX_SCALE })).add(
        x4.div(Fx { raw: 24 * FX_SCALE }),
    ).sub(x6.div(Fx { raw: 720 * FX_SCALE }))
}

/// Tangent approximation.
pub fn tan_approx(x: Fx) -> (r: Fx)
    requires
        fx_wf(x),
    ensures
        r == spec_tan(x),
        fx_wf(r),
{
    let s = sin_approx(x);
    let c = cos_approx(x);
    s.div(c)
}

/// Why a camera configuration was rejected.
#[derive(Clone, Copy, Debug, PartialEq, Eq, Structural)]
pub enum CameraError {
    NonPositiveAspectRatio,
    ZeroImageWidth,
    ImageTooWide,
    ZeroSamplesPerPixel,
    TooManySamples,
    FieldOfViewOutOfRange,
    TooManyPixels,
}

impl CameraError {
    /// A short description of the rejection.
    pub fn description(&self) -> &'static str {
        match self {
            CameraError::NonPositiveAspectRatio => "aspect ratio must be positive",
            CameraError::ZeroImageWidth => "image width must be at least one pixel",
            CameraError::ImageTooWide => "image width is over the supported limit",
            CameraError::ZeroSamplesPerPixel => "samples per pixel must be at least one",
            CameraError::TooManySamples => "samples per pixel is over the supported limit",
            CameraError::FieldOfViewOutOfRange => "vertical field of view must lie in (0, 180)",
            CameraError::TooManyPixels => "total pixel count is over the supported limit",
        }
    }
}

/// The derived image height: the width divided by the aspect ratio,
/// truncated, and lifted to at least one row.
pub open spec fn spec_image_height(width: int, aspect_ratio: Fx) -> int {
    let h = tdiv(
        fx_div_raw(width * (FX_SCALE as int), aspect_ratio.raw as int),
        FX_SCALE as int,
    );
    if h < 1 {
        1
    } else {
        h
    }
}

/// The camera: its configuration, and the projection geometry derived
/// from it once at construction.
pub struct Camera {
    pub aspect_ratio: Fx,
    pub image_width: usize,
    pub samples_per_pixel: usize,
    pub max_depth: usize,
    pub vfov: Fx,
    pub lookfrom: Point3,
    pub lookat: Point3,
    pub vup: Vec3,
    pub defocus_angle: Fx,
    pub focus_dist: Fx,
    pub image_height: usize,
    pub pixel_samples_scale: Fx,
    pub center: Point3,
    pub pixel00_loc: Point3,
    pub pixel_delta_u: Vec3,
    pub pixel_delta_v: Vec3,
    pub u: Vec3,
    pub v: Vec3,
    pub w: Vec3,
    pub defocus_disk_u: Vec3,
    pub defocus_disk_v: Vec3,
}

/// Well-formedness: every scalar in range, at least one pixel each way,
/// at least one sample, and a bounded pixel count.
pub open spec fn camera_wf(cam: Camera) -> bool {
    &&& fx_wf(cam.aspect_ratio)
    &&& fx_wf(cam.vfov)
    &&& fx_wf(cam.defocus_angle)
    &&& fx_wf(cam.focus_dist)
    &&& fx_wf(cam.pixel_samples_scale)
    &&& v_wf(cam.lookfrom)
    &&& v_wf(cam.lookat)
    &&& v_wf(cam.vup)
    &&& v_wf(cam.center)
    &&& v_wf(cam.pixel00_loc)
    &&& v_wf(cam.pixel_delta_u)
    &&& v_wf(cam.pixel_delta_v)
    &&& v_wf(cam.u)
    &&& v_wf(cam.v)
    &&& v_wf(cam.w)
    &&& v_wf(cam.defocus_disk_u)
    &&& v_wf(cam.defocus_disk_v)
    &&& 1 <= cam.image_width <= MAX_IMAGE_WIDTH
    &&& 1 <= cam.image_height
    &&& 1 <= cam.samples_per_pixel <= MAX_SAMPLES
    &&& cam.image_width * cam.image_height <= MAX_PIXELS
}

/// The derived fields are exactly the projection formulas applied to
/// the configuration fields.
pub open spec fn camera_derived(cam: Camera) -> bool {
    let w_fx = spec_fx((cam.image_width as int) * (FX_SCALE as int));
    let h_fx = spec_fx((cam.image_height as int) * (FX_SCALE as int));
    let two = Fx { raw: 131072 };
    let half = Fx { raw: 32768 };
    let theta = spec_degrees_to_radians(cam.vfov);
    let tan_half = spec_tan(spec_fx(fx_div_raw(theta.raw as int, 2 * FX_SCALE as int)));
    let viewport_height = spec_fx(
        fx_mul_raw(
            fx_mul_raw(2 * FX_SCALE as int, tan_half.raw as int),
            cam.focus_dist.raw as int,
        ),
    );
    let viewport_width = spec_fx(
        fx_mul_raw(
            viewport_height.raw as int,
            fx_div_raw(w_fx.raw as int, h_fx.raw as int),
        ),
    );
    let viewport_u = spec_vscale(cam.u, viewport_width);
    let viewport_v = spec_vscale(spec_vneg(cam.v), viewport_height);
    let viewport_upper_left = spec_vsub(
        spec_vsub(
            spec_vsub(cam.center, spec_vscale(cam.w, cam.focus_dist)),
            spec_vdiv(viewport_u, two),
        ),
        spec_vdiv(viewport_v, two),
    );
    let defocus_radius = spec_fx(
        fx_mul_raw(
            cam.focus_dist.raw as int,
            spec_tan(
                spec_degrees_to_radians(
                    spec_fx(fx_div_raw(cam.defocus_angle.raw as int, 2 * FX_SCALE as int)),
                ),
            ).raw as int,
        ),
    );
    &&& cam.image_height as int == spec_image_height(cam.image_width as int, cam.aspect_ratio)
    &&& cam.pixel_samples_scale == spec_fx(
        fx_div_raw(
            FX_SCALE as int,
            spec_fx((cam.samples_per_pixel as int) * (FX_SCALE as int)).raw as int,
        ),
    )
    &&& cam.center == cam.lookfrom
    &&& cam.w == spec_unit(spec_vsub(cam.lookfrom, cam.lookat))
    &&& cam.u == spec_unit(spec_cross(cam.vup, cam.w))
    &&& cam.v == spec_cross(cam.w, cam.u)
    &&& cam.pixel_delta_u == spec_vdiv(viewport_u, w_fx)
    &&& cam.pixel_delta_v == spec_vdiv(viewport_v, h_fx)
    &&& cam.pixel00_loc == spec_vadd(
        viewport_upper_left,
        spec_vscale(spec_vadd(cam.pixel_delta_u, cam.pixel_delta_v), half),
    )
    &&& cam.defocus_disk_u == spec_vscale(cam.u, defocus_radius)
    &&& cam.defocus_disk_v == spec_vscale(cam.v, defocus_radius)
}

impl Camera {
    /// Derives a camera from its configuration, rejecting a malformed
    /// one. The checks run in the order of the error conditions below.
    #[verifier::rlimit(60)]
    pub fn new(
        aspect_ratio: Fx,
        image_width: usize,
        samples_per_pixel: usize,
        max_depth: usize,
        vfov: Fx,
        lookfrom: Point3,
        lookat: Point3,
        vup: Vec3,
        defocus_angle: Fx,
        focus_dist: Fx,
    ) -> (res: Result<Camera, CameraError>)
        requires
            fx_wf(aspect_ratio),
            fx_wf(vfov),
            fx_wf(defocus_angle),
            fx_wf(focus_dist),
            v_wf(lookfrom),
            v_wf(lookat),
            v_wf(vup),
        ensures
            res == Err::<Camera, CameraError>(CameraError::NonPositiveAspectRatio) <==> (
            aspect_ratio.raw <= 0),
            res == Err::<Camera, CameraError>(CameraError::ZeroImageWidth) <==> (aspect_ratio.raw
                > 0 && image_width == 0),
            res == Err::<Camera, CameraError>(CameraError::ImageTooWide) <==> (aspect_ratio.raw > 0
                && 1 <= image_width && image_width > MAX_IMAGE_WIDTH),
            res == Err::<Camera, CameraError>(CameraError::ZeroSamplesPerPixel) <==> (
            aspect_ratio.raw > 0 && 1 <= image_width <= MAX_IMAGE_WIDTH && samples_per_pixel == 0),
            res == Err::<Camera, CameraError>(CameraError::TooManySamples) <==> (aspect_ratio.raw
                > 0 && 1 <= image_width <= MAX_IMAGE_WIDTH && 1 <= samples_per_pixel
                && samples_per_pixel > MAX_SAMPLES),
            res == Err::<Camera, CameraError>(CameraError::FieldOfViewOutOfRange) <==> (
            aspect_ratio.raw > 0 && 1 <= image_width <= MAX_IMAGE_WIDTH && 1 <= samples_per_pixel
                <= MAX_SAMPLES && !(0 < vfov.raw < 180 * FX_SCALE)),
            res == Err::<Camera, CameraError>(CameraError::TooManyPixels) <==> (aspect_ratio.raw
                > 0 && 1 <= image_width <= MAX_IMAGE_WIDTH && 1 <= samples_per_pixel <= MAX_SAMPLES
                && 0 < vfov.raw < 180 * FX_SCALE && (image_width as int) * spec_image_height(
                image_width as int,
                aspect_ratio,
            ) > MAX_PIXELS),
            res matches Ok(cam) ==> {
                &&& cam.aspect_ratio == aspect_ratio
                &&& cam.image_width == image_width
                &&& cam.samples_per_pixel == samples_per_pixel
                &&& cam.max_depth == max_depth
                &&& cam.vfov == vfov
                &&& cam.lookfrom == lookfrom
                &&& cam.lookat == lookat
                &&& cam.vup == vup
                &&& cam.defocus_angle == defocus_angle
                &&& cam.focus_dist == focus_dist
                &&& camera_wf(cam)
                &&& camera_derived(cam)
            },
    {
        if aspect_ratio.raw <= 0 {
            return Err(CameraError::NonPositiveAspectRatio);
        }
        if image_width == 0 {
            return Err(CameraError::ZeroImageWidth);
        }
        if image_width > MAX_IMAGE_WIDTH {
            return Err(CameraError::ImageTooWide);
        }
        if samples_per_pixel == 0 {
            return Err(CameraError::ZeroSamplesPerPixel);
        }
        if samples_per_pixel > MAX_SAMPLES {
            return Err(CameraError::TooManySamples);
        }
        if !(vfov.raw > 0 && vfov.raw < 180 * FX_SCALE) {
            return Err(CameraError::FieldOfViewOutOfRange);
        }

        let width_fx = Fx::from_int(image_width as i64);
        let height_ratio = width_fx.div(aspect_ratio);
        proof {
            assert((image_width as int) * (FX_SCALE as int) * (FX_SCALE as int) >= 0)
                by (nonlinear_arith)
                requires
                    image_width >= 1,
            ;
            vstd::arithmetic::div_mod::lemma_div_pos_is_pos(
                (image_width as int) * (FX_SCALE as int) * (FX_SCALE as int),
                aspect_ratio.raw as int,
            );
        }
        let ih_wide = int_part_nonneg(height_ratio);
        let ih_wide = if ih_wide < 1 {
            1i128
        } else {
            ih_wide
        };
        let cap: u128 = (MAX_PIXELS as u128) / (image_width as u128);
        proof {
            vstd::arithmetic::div_mod::lemma_fundamental_div_mod(
                MAX_PIXELS as int,
                image_width as int,
            );
        }
        if (ih_wide as u128) > cap {
            proof {
                assert((image_width as int) * (ih_wide as int) > MAX_PIXELS as int)
                    by (nonlinear_arith)
                    requires
                        1 <= image_width,
                        ih_wide as int > (MAX_PIXELS as int) / (image_width as int),
                        MAX_PIXELS as int == (image_width as int) * ((MAX_PIXELS as int) / (
                        image_width as int)) + (MAX_PIXELS as int) % (image_width as int),
                        0 <= (MAX_PIXELS as int) % (image_width as int) < image_width as int,
                ;
            }
            return Err(CameraError::TooManyPixels);
        }
        let image_height: usize = ih_wide as usize;
        proof {
            assert((image_width as int) * (ih_wide as int) <= MAX_PIXELS as int)
                by (nonlinear_arith)
                requires
                    1 <= image_width,
                    1 <= ih_wide,
                    ih_wide as int <= (MAX_PIXELS as int) / (image_width as int),
                    MAX_PIXELS as int == (image_width as int) * ((MAX_PIXELS as int) / (
                    image_width as int)) + (MAX_PIXELS as int) % (image_width as int),
                    0 <= (MAX_PIXELS as int) % (image_width as int) < image_width as int,
            ;
        }

        let height_fx = Fx::from_int(image_height as i64);
        let samples_fx = Fx::from_int(samples_per_pixel as i64);
        let one = Fx { raw: FX_SCALE };
        let two = Fx { raw: 2 * FX_SCALE };
        let half = Fx { raw: FX_SCALE / 2 };
        let pixel_samples_scale = one.div(samples_fx);

        let center = lookfrom;

        let theta = degrees_to_radians(vfov);
        let tan_half = tan_approx(theta.div(two));
        let viewport_height = two.mul(tan_half).mul(focus_dist);
        let viewport_width = viewport_height.mul(width_fx.div(height_fx));

        let w = lookfrom.sub(lookat).unit_vector();
        let u = cross(vup, w).unit_vector();
        let v = cross(w, u);

        let viewport_u = u.scale(viewport_width);
        let viewport_v = v.neg().scale(viewport_height);

        let pixel_delta_u = viewport_u.div(width_fx);
        let pixel_delta_v = viewport_v.div(height_fx);

        let viewport_upper_left = center.sub(w.scale(focus_dist)).sub(viewport_u.div(two)).sub(
            viewport_v.div(two),
        );
        let pixel00_loc = viewport_upper_left.add(pixel_delta_u.add(pixel_delta_v).scale(half));

        let defocus_radius = focus_dist.mul(tan_approx(degrees_to_radians(defocus_angle.div(two))));
        let defocus_disk_u = u.scale(defocus_radius);
        let defocus_disk_v = v.scale(defocus_radius);

        Ok(
            Camera {
                aspect_ratio,
                image_width,
                samples_per_pixel,
                max_depth,
                vfov,
                lookfrom,
                lookat,
                vup,
                defocus_angle,
                focus_dist,
                image_height,
                pixel_samples_scale,
                center,
                pixel00_loc,
                pixel_delta_u,
                pixel_delta_v,
                u,
                v,
                w,
                defocus_disk_u,
                defocus_disk_v,
            },
        )
    }
}

/// The integer part of a nonnegative fixed-point scalar.
fn int_part_nonneg(x: Fx) -> (r: i128)
    requires
        fx_wf(x),
        x.raw >= 0,
    ensures
        r as int == tdiv(x.raw as int, FX_SCALE as int),
        r >= 0,
{
    let q: u128 = (x.raw as u128) / (FX_SCALE as u128);
    proof {
        vstd::arithmetic::div_mod::lemma_div_nonincreasing(x.raw as int, FX_SCALE as int);
        vstd::arithmetic::div_mod::lemma_div_pos_is_pos(x.raw as int, FX_SCALE as int);
    }
    q as i128
}

/// The parameter range every radiance query uses: from just above zero
/// (avoiding self-intersection at a scatter origin) to the
/// representable maximum, the stand-in for infinity.
pub open spec fn spec_shadow_interval() -> Interval {
    Interval { min: Fx { raw: SHADOW_ACNE_RAW }, max: Fx { raw: FX_MAX_RAW } }
}

/// The light blue the background gradient blends toward.
pub open spec fn spec_sky_blue() -> Color {
    Color(Vec3 { x: Fx { raw: 32768 }, y: Fx { raw: 45875 }, z: Fx { raw: 65536 } })
}

/// The background gradient a missed ray yields: with
/// `a = (unit_y + 1) / 2`, the blend `(1 - a)*white + a*skyblue` — a
/// function of the normalized direction's vertical component alone.
pub open spec fn spec_sky(r: Ray) -> Color {
    let unit = spec_unit(r.dir);
    let a = spec_fx(fx_mul_raw(fx_add_raw(unit.y.raw as int, FX_SCALE as int), 32768));
    let one_minus = spec_fx(fx_sub_raw(FX_SCALE as int, a.raw as int));
    spec_cadd(spec_cscale(Color::spec_white(), one_minus), spec_cscale(spec_sky_blue(), a))
}

/// Rays whose normalized directions share a vertical component are
/// painted the same background color, whatever the scene holds.
pub proof fn lemma_sky_depends_on_unit_y(r1: Ray, r2: Ray)
    requires
        spec_unit(r1.dir).y == spec_unit(r2.dir).y,
    ensures
        spec_sky(r1) == spec_sky(r2),
{
}

/// The ray origin for an open aperture: the camera center displaced
/// along the defocus-disk basis by a drawn disk point `d`.
pub open spec fn spec_defocus_origin(cam: Camera, d: Vec3) -> Point3 {
    spec_vadd(
        spec_vadd(cam.center, spec_vscale(cam.defocus_disk_u, d.x)),
        spec_vscale(cam.defocus_disk_v, d.y),
    )
}

/// The pixel-sample point for pixel `(i, j)` under a sub-pixel jitter
/// `(off_x, off_y)`.
pub open spec fn spec_pixel_sample(cam: Camera, i: int, j: int, off_x: Fx, off_y: Fx) -> Point3 {
    spec_vadd(
        spec_vadd(
            cam.pixel00_loc,
            spec_vscale(
                cam.pixel_delta_u,
                spec_fx(fx_add_raw(spec_fx(i * (FX_SCALE as int)).raw as int, off_x.raw as int)),
            ),
        ),
        spec_vscale(
            cam.pixel_delta_v,
            spec_fx(fx_add_raw(spec_fx(j * (FX_SCALE as int)).raw as int, off_y.raw as int)),
        ),
    )
}

/// A rectangular portion of the image: one scheduling unit of the
/// renderer.
#[derive(Clone, Copy, Debug, PartialEq, Eq, Structural)]
pub struct Tile {
    pub x_min: usize,
    pub x_max: usize,
    pub y_min: usize,
    pub y_max: usize,
}

/// The tile edge along one axis: the axis length divided by the grid
/// partition count, rounded up.
pub open spec fn spec_chunk(len: int, parts: int) -> int {
    (len + parts - 1) / parts
}

/// The lower pixel bound of tile index `ti` along one axis, clamped to
/// the axis length.
pub open spec fn spec_tile_lo(ti: int, len: int, parts: int) -> int {
    let c = spec_chunk(len, parts);
    if ti * c <= len {
        ti * c
    } else {
        len
    }
}

/// The upper pixel bound (exclusive) of tile index `ti` along one
/// axis, clamped to the axis length.
pub open spec fn spec_tile_hi(ti: int, len: int, parts: int) -> int {
    let c = spec_chunk(len, parts);
    if (ti + 1) * c <= len {
        (ti + 1) * c
    } else {
        len
    }
}

/// The bounds of the tile at grid position `(ti, tj)` for a
/// `parts_x` by `parts_y` partition of a `width` by `height` image.
pub fn tile_bounds(
    ti: usize,
    tj: usize,
    parts_x: usize,
    parts_y: usize,
    width: usize,
    height: usize,
) -> (t: Tile)
    requires
        1 <= parts_x <= 100_000,
        1 <= parts_y <= 100_000,
        ti < parts_x,
        tj < parts_y,
        1 <= width <= MAX_PIXELS,
        1 <= height <= MAX_PIXELS,
    ensures
        t.x_min as int == spec_tile_lo(ti as int, width as int, parts_x as int),
        t.x_max as int == spec_tile_hi(ti as int, width as int, parts_x as int),
        t.y_min as int == spec_tile_lo(tj as int, height as int, parts_y as int),
        t.y_max as int == spec_tile_hi(tj as int, height as int, parts_y as int),
        t.x_min <= t.x_max <= width,
        t.y_min <= t.y_max <= height,
{
    let x = tile_axis_bounds(ti, parts_x, width);
    let y = tile_axis_bounds(tj, parts_y, height);
    Tile { x_min: x.0, x_max: x.1, y_min: y.0, y_max: y.1 }
}

/// The clamped `[lo, hi)` bounds of tile index `ti` along one axis.
fn tile_axis_bounds(ti: usize, parts: usize, len: usize) -> (b: (usize, usize))
    requires
        1 <= parts <= 100_000,
        ti < parts,
        1 <= len <= MAX_PIXELS,
    ensures
        b.0 as int == spec_tile_lo(ti as int, len as int, parts as int),
        b.1 as int == spec_tile_hi(ti as int, len as int, parts as int),
        b.0 <= b.1 <= len,
{
    let chunk: usize = (len + parts - 1) / parts;
    proof {
        vstd::arithmetic::div_mod::lemma_div_nonincreasing(
            len as int + parts as int - 1,
            parts as int,
        );
        vstd::arithmetic::div_mod::lemma_div_pos_is_pos(
            len as int + parts as int - 1,
            parts as int,
        );
        assert((ti as int + 1) * (chunk as int) <= 100_000 * (MAX_PIXELS as int + 100_000))
            by (nonlinear_arith)
            requires
                0 <= ti as int + 1 <= 100_000,
                0 <= chunk as int <= MAX_PIXELS as int + 100_000,
        ;
        assert((ti as int) * (chunk as int) <= (ti as int + 1) * (chunk as int))
            by (nonlinear_arith)
            requires
                0 <= ti,
                0 <= chunk,
        ;
        assert((ti as int) * (chunk as int) >= 0) by (nonlinear_arith)
            requires
                0 <= ti,
                0 <= chunk,
        ;
    }
    let lo64: u64 = (ti as u64) * (chunk as u64);
    let hi64: u64 = (ti as u64 + 1) * (chunk as u64);
    let lo: usize = if lo64 <= len as u64 {
        lo64 as usize
    } else {
        len
    };
    let hi: usize = if hi64 <= len as u64 {
        hi64 as usize
    } else {
        len
    };
    (lo, hi)
}

/// Every pixel coordinate along one axis falls inside exactly one tile
/// index of the partition: the one at `x / chunk`.
pub proof fn lemma_chunks_cover(len: int, parts: int, x: int)
    requires
        1 <= parts,
        1 <= len,
        0 <= x < len,
    ensures
        spec_chunk(len, parts) >= 1,
        0 <= x / spec_chunk(len, parts) < parts,
        spec_tile_lo(x / spec_chunk(len, parts), len, parts) <= x,
        x < spec_tile_hi(x / spec_chunk(len, parts), len, parts),
        forall|ti: int|
            0 <= ti < parts && #[trigger] spec_tile_lo(ti, len, parts) <= x < spec_tile_hi(
                ti,
                len,
                parts,
            ) ==> ti == x / spec_chunk(len, parts),
{
    let c = spec_chunk(len, parts);
    assert(c >= 1) by {
        vstd::arithmetic::div_mod::lemma_div_is_ordered(parts, len + parts - 1, parts);
        vstd::arithmetic::div_mod::lemma_div_by_self(parts);
    }
    assert(parts * c >= len) by {
        vstd::arithmetic::div_mod::lemma_fundamental_div_mod(len + parts - 1, parts);
        vstd::arithmetic::div_mod::lemma_mod_division_less_than_divisor(len + parts - 1, parts);
    }
    let ti = x / c;
    vstd::arithmetic::div_mod::lemma_fundamental_div_mod(x, c);
    vstd::arithmetic::div_mod::lemma_mod_division_less_than_divisor(x, c);
    vstd::arithmetic::div_mod::lemma_div_pos_is_pos(x, c);
    assert(ti * c <= x < (ti + 1) * c) by {
        assert(x == c * ti + x % c);
        assert(ti * c == c * ti) by (nonlinear_arith);
        assert((ti + 1) * c == c * ti + c) by (nonlinear_arith);
    }
    assert(ti < parts) by {
        if ti >= parts {
            vstd::arithmetic::mul::lemma_mul_inequality(parts, ti, c);
            assert(parts * c <= ti * c);
        }
    }
    assert forall|tj: int|
        0 <= tj < parts && #[trigger] spec_tile_lo(tj, len, parts) <= x < spec_tile_hi(
            tj,
            len,
            parts,
        ) implies tj == x / c by {
        if spec_tile_lo(tj, len, parts) == len {
            assert(false);
        }
        assert(tj * c <= x);
        assert(x < (tj + 1) * c) by {
            if (tj + 1) * c > len {
                assert(spec_tile_hi(tj, len, parts) == len);
            } else {
                assert(spec_tile_hi(tj, len, parts) == (tj + 1) * c);
            }
        }
        assert((tj + 1) * c == tj * c + c) by (nonlinear_arith);
        assert(0 <= x - tj * c < c);
        assert(x == tj * c + (x - tj * c));
        vstd::arithmetic::div_mod::lemma_fundamental_div_mod_converse_div(x, c, tj, x - tj * c);
    }
}

/// Every pixel of the image lies in exactly one tile of the grid
/// partition: whichever tiles a scheduler dispatches, and in whatever
/// order they complete, each pixel belongs to one tile alone, so a
/// renderer that writes each tile's pixels once writes every pixel
/// exactly once.
pub proof fn lemma_tiles_cover_pixels(
    parts_x: int,
    parts_y: int,
    width: int,
    height: int,
    x: int,
    y: int,
)
    requires
        1 <= parts_x,
        1 <= parts_y,
        1 <= width,
        1 <= height,
        0 <= x < width,
        0 <= y < height,
    ensures
        0 <= x / spec_chunk(width, parts_x) < parts_x,
        0 <= y / spec_chunk(height, parts_y) < parts_y,
        spec_tile_lo(x / spec_chunk(width, parts_x), width, parts_x) <= x,
        x < spec_tile_hi(x / spec_chunk(width, parts_x), width, parts_x),
        spec_tile_lo(y / spec_chunk(height, parts_y), height, parts_y) <= y,
        y < spec_tile_hi(y / spec_chunk(height, parts_y), height, parts_y),
        forall|ti: int, tj: int|
            0 <= ti < parts_x && 0 <= tj < parts_y && #[trigger] spec_tile_lo(ti, width, parts_x)
                <= x < spec_tile_hi(ti, width, parts_x) && #[trigger] spec_tile_lo(
                tj,
                height,
                parts_y,
            ) <= y < spec_tile_hi(tj, height, parts_y) ==> ti == x / spec_chunk(width, parts_x)
                && tj == y / spec_chunk(height, parts_y),
{
    lemma_chunks_cover(width, parts_x, x);
    lemma_chunks_cover(height, parts_y, y);
}

impl Camera {
    /// A jittered camera ray through pixel `(i, j)`: the sample point
    /// is the pixel center displaced by a uniform sub-pixel offset, and
    /// the origin is the camera center, or a point of the defocus disk
    /// when the aperture is open.
    pub fn get_ray(&self, i: usize, j: usize, s: &mut Sampler) -> (r: Ray)
        requires
            camera_wf(*self),
            i < self.image_width,
            j < self.image_height,
        ensures
            ray_wf(r),
            self.defocus_angle.raw <= 0 ==> r.orig == self.center,
            self.defocus_angle.raw > 0 ==> exists|d: Vec3|
                {
                    &&& v_wf(d)
                    &&& d.z.raw == 0
                    &&& spec_len_sq(d).raw < FX_SCALE
                    &&& r.orig == #[trigger] spec_defocus_origin(*self, d)
                },
            exists|off_x: Fx, off_y: Fx|
                {
                    &&& -32768 <= #[trigger] off_x.raw < 32768
                    &&& -32768 <= #[trigger] off_y.raw < 32768
                    &&& r.dir == spec_vsub(
                        spec_pixel_sample(*self, i as int, j as int, off_x, off_y),
                        r.orig,
                    )
                },
    {
        proof {
            assert(self.image_height <= MAX_PIXELS as int) by (nonlinear_arith)
                requires
                    1 <= self.image_width,
                    (self.image_width as int) * (self.image_height as int) <= MAX_PIXELS as int,
            ;
        }
        let offset = sample_square(s);
        let i_fx = Fx::from_int(i as i64);
        let j_fx = Fx::from_int(j as i64);
        let pixel_sample = self.pixel00_loc.add(
            self.pixel_delta_u.scale(i_fx.add(offset.x())),
        ).add(self.pixel_delta_v.scale(j_fx.add(offset.y())));

        let ray_origin = if self.defocus_angle.raw <= 0 {
            self.center
        } else {
            self.defocus_disk_sample(s)
        };
        let ray_direction = pixel_sample.sub(ray_origin);
        let r = Ray::new(ray_origin, ray_direction);
        proof {
            assert(r.dir == spec_vsub(
                spec_pixel_sample(*self, i as int, j as int, offset.x, offset.y),
                r.orig,
            ));
            if self.defocus_angle.raw > 0 {
                let d = choose|d: Vec3|
                    {
                        &&& v_wf(d)
                        &&& d.z.raw == 0
                        &&& spec_len_sq(d).raw < FX_SCALE
                        &&& ray_origin == #[trigger] spec_defocus_origin(*self, d)
                    };
                assert(r.orig == spec_defocus_origin(*self, d));
            }
        }
        r
    }

    /// A point on the defocus disk, in world coordinates: the camera
    /// center displaced along the disk basis vectors by a point drawn
    /// from the open unit disk.
    fn defocus_disk_sample(&self, s: &mut Sampler) -> (p: Point3)
        requires
            camera_wf(*self),
        ensures
            v_wf(p),
            exists|d: Vec3|
                {
                    &&& v_wf(d)
                    &&& d.z.raw == 0
                    &&& spec_len_sq(d).raw < FX_SCALE
                    &&& p == #[trigger] spec_defocus_origin(*self, d)
                },
    {
        let d = random_in_unit_disk(s);
        let p = self.center.add(self.defocus_disk_u.scale(d.x())).add(
            self.defocus_disk_v.scale(d.y()),
        );
        proof {
            assert(p == spec_defocus_origin(*self, d));
        }
        p
    }

    /// The radiance arriving along a ray, integrated recursively: black
    /// once the bounce budget is exhausted; on a hit, the material
    /// either absorbs the ray (black) or attenuates the radiance of the
    /// scattered ray; on a miss, the background gradient. The recursion
    /// always terminates within `depth` scatter steps.
    pub fn ray_color(&self, r: &Ray, depth: usize, world: &Hittable, s: &mut Sampler) -> (c: Color)
        requires
            ray_wf(*r),
            hittable_wf(*world),
        ensures
            color_wf(c),
            depth == 0 ==> c == Color(Vec3 { x: Fx { raw: 0 }, y: Fx { raw: 0 }, z: Fx { raw: 0 } }),
            depth > 0 && spec_hit(*world, *r, spec_shadow_interval()) is None ==> c == spec_sky(*r),
        decreases depth,
    {
        if depth == 0 {
            return Color::black();
        }

        let shadow = Interval::with_bounds(Fx { raw: SHADOW_ACNE_RAW }, Fx { raw: FX_MAX_RAW });
        match world.hit(r, shadow) {
            Some(rec) => {
                match rec.mat.scatter(r, &rec, s) {
                    Some((attenuation, scattered)) => {
                        let inner = self.ray_color(&scattered, depth - 1, world, s);
                        attenuation.mul(inner)
                    },
                    None => Color::black(),
                }
            },
            None => {
                let unit_direction = r.direction().unit_vector();
                let a = unit_direction.y().add(Fx { raw: FX_SCALE }).mul(Fx { raw: 32768 });
                let one_minus = Fx { raw: FX_SCALE }.sub(a);
                let white = Color::white();
                let blue = Color::new(Fx { raw: 32768 }, Fx { raw: 45875 }, Fx { raw: 65536 });
                white.scale(one_minus).add(blue.scale(a))
            },
        }
    }

    /// Renders one tile: for every pixel in its bounds, averages
    /// `samples_per_pixel` radiance integrations, scaled by the
    /// per-sample scale, in row-major order.
    pub fn render_tile(&self, world: &Hittable, t: Tile, s: &mut Sampler) -> (pixels: Vec<Color>)
        requires
            camera_wf(*self),
            hittable_wf(*world),
            t.x_min <= t.x_max <= self.image_width,
            t.y_min <= t.y_max <= self.image_height,
        ensures
            pixels@.len() == (t.x_max - t.x_min) * (t.y_max - t.y_min),
            forall|k: int| 0 <= k < pixels@.len() ==> color_wf(#[trigger] pixels@[k]),
    {
        let tw = t.x_max - t.x_min;
        let mut out: Vec<Color> = Vec::new();
        let mut y = t.y_min;
        while y < t.y_max
            invariant
                camera_wf(*self),
                hittable_wf(*world),
                t.x_min <= t.x_max <= self.image_width,
                t.y_min <= y <= t.y_max,
                t.y_max <= self.image_height,
                tw == t.x_max - t.x_min,
                out@.len() == (y - t.y_min) * tw,
                forall|k: int| 0 <= k < out@.len() ==> color_wf(#[trigger] out@[k]),
            decreases t.y_max - y,
        {
            let mut x = t.x_min;
            while x < t.x_max
                invariant
                    camera_wf(*self),
                    hittable_wf(*world),
                    t.x_min <= x <= t.x_max <= self.image_width,
                    t.y_min <= y < t.y_max <= self.image_height,
                    tw == t.x_max - t.x_min,
                    out@.len() == (y - t.y_min) * tw + (x - t.x_min),
                    forall|k: int| 0 <= k < out@.len() ==> color_wf(#[trigger] out@[k]),
                decreases t.x_max - x,
            {
                let mut pixel_color = Color::black();
                let mut sample: usize = 0;
                while sample < self.samples_per_pixel
                    invariant
                        camera_wf(*self),
                        hittable_wf(*world),
                        x < self.image_width,
                        y < self.image_height,
                        sample <= self.samples_per_pixel,
                        color_wf(pixel_color),
                    decreases self.samples_per_pixel - sample,
                {
                    let ray = self.get_ray(x, y, s);
                    let c = self.ray_color(&ray, self.max_depth, world, s);
                    pixel_color = pixel_color.add(c);
                    sample = sample + 1;
                }
                out.push(pixel_color.scale(self.pixel_samples_scale));
                x = x + 1;
            }
            proof {
                vstd::arithmetic::mul::lemma_mul_is_distributive_add_other_way(
                    tw as int,
                    y - t.y_min,
                    1,
                );
            }
            y = y + 1;
        }
        proof {
            assert((t.y_max - t.y_min) * (tw as int) == (tw as int) * (t.y_max - t.y_min))
                by (nonlinear_arith);
            assert((t.x_max - t.x_min) * (t.y_max - t.y_min) == (t.y_max - t.y_min) * (tw as int))
                by (nonlinear_arith)
                requires
                    tw == t.x_max - t.x_min,
            ;
        }
        out
    }

    /// Renders the full image in row-major pixel order: every pixel of
    /// the `image_width` by `image_height` raster is computed and takes
    /// exactly one slot of the result, addressed by its absolute
    /// coordinates (`y * image_width + x`).
    pub fn render(&self, world: &Hittable, s: &mut Sampler) -> (pixels: Vec<Color>)
        requires
            camera_wf(*self),
            hittable_wf(*world),
        ensures
            pixels@.len() == self.image_width * self.image_height,
            forall|k: int| 0 <= k < pixels@.len() ==> color_wf(#[trigger] pixels@[k]),
    {
        let whole = Tile { x_min: 0, x_max: self.image_width, y_min: 0, y_max: self.image_height };
        let pixels = self.render_tile(world, whole, s);
        pixels
    }
}

/// A uniform sub-pixel jitter: both components lie in `[-1/2, 1/2)`,
/// the third is zero.
pub fn sample_square(s: &mut Sampler) -> (offset: Vec3)
    ensures
        v_wf(offset),
        -32768 <= offset.x.raw < 32768,
        -32768 <= offset.y.raw < 32768,
        offset.z.raw == 0,
{
    let half = Fx { raw: 32768 };
    let x = random_double(s).sub(half);
    let y = random_double(s).sub(half);
    Vec3 { x, y, z: Fx { raw: 0 } }
}

/// Whether buffer slot `k` belongs to tile `t` of a row-major image of
/// the given width: its row and column fall inside the tile bounds.
pub open spec fn spec_tile_owns(t: Tile, width: int, k: int) -> bool {
    &&& t.y_min <= k / width < t.y_max
    &&& t.x_min <= k % width < t.x_max
}

/// Writes one rendered tile into the shared row-major pixel buffer:
/// every slot the tile owns receives its pixel, and no other slot
/// changes — so tiles with disjoint bounds may be committed in any
/// order.
pub fn commit_tile(buffer: &mut Vec<Option<Color>>, width: usize, t: Tile, vals: &Vec<Color>)
    requires
        1 <= width,
        t.x_min <= t.x_max <= width,
        t.y_min <= t.y_max,
        (t.y_max as int) * (width as int) <= old(buffer)@.len(),
        vals@.len() == (t.x_max - t.x_min) * (t.y_max - t.y_min),
    ensures
        final(buffer)@.len() == old(buffer)@.len(),
        forall|k: int|
            #![trigger final(buffer)@[k]]
            0 <= k < final(buffer)@.len() ==> final(buffer)@[k] == (if spec_tile_owns(
                t,
                width as int,
                k,
            ) {
                Some(
                    vals@[(k / (width as int) - t.y_min) * (t.x_max - t.x_min) + (k % (
                    width as int) - t.x_min)],
                )
            } else {
                old(buffer)@[k]
            }),
{
    let ghost orig = buffer@;
    let n = buffer.len();
    let vn = vals.len();
    let tw = t.x_max - t.x_min;
    let mut y = t.y_min;
    proof {
        assert forall|k: int|
            0 <= k < buffer@.len() && spec_tile_owns(t, width as int, k) implies k / (
        width as int) >= t.y_min by {}
    }
    while y < t.y_max
        invariant
            1 <= width,
            t.x_min <= t.x_max <= width,
            t.y_min <= y <= t.y_max,
            (t.y_max as int) * (width as int) <= buffer@.len(),
            buffer@.len() == n as int,
            vals@.len() == vn as int,
            tw == t.x_max - t.x_min,
            vals@.len() == (t.x_max - t.x_min) * (t.y_max - t.y_min),
            buffer@.len() == orig.len(),
            forall|k: int|
                #![trigger buffer@[k]]
                0 <= k < buffer@.len() ==> buffer@[k] == (if spec_tile_owns(t, width as int, k)
                    && k / (width as int) < y {
                    Some(
                        vals@[(k / (width as int) - t.y_min) * (t.x_max - t.x_min) + (k % (
                        width as int) - t.x_min)],
                    )
                } else {
                    orig[k]
                }),
        decreases t.y_max - y,
    {
        let mut x = t.x_min;
        while x < t.x_max
            invariant
                1 <= width,
                t.x_min <= x <= t.x_max <= width,
                t.y_min <= y < t.y_max,
                (t.y_max as int) * (width as int) <= buffer@.len(),
                buffer@.len() == n as int,
                vals@.len() == vn as int,
                tw == t.x_max - t.x_min,
                vals@.len() == (t.x_max - t.x_min) * (t.y_max - t.y_min),
                buffer@.len() == orig.len(),
                forall|k: int|
                    #![trigger buffer@[k]]
                    0 <= k < buffer@.len() ==> buffer@[k] == (if spec_tile_owns(t, width as int, k)
                        && (k / (width as int) < y || (k / (width as int) == y && k % (
                    width as int) < x)) {
                        Some(
                            vals@[(k / (width as int) - t.y_min) * (t.x_max - t.x_min) + (k % (
                            width as int) - t.x_min)],
                        )
                    } else {
                        orig[k]
                    }),
            decreases t.x_max - x,
        {
            proof {
                assert((y as int + 1) * (width as int) <= (t.y_max as int) * (width as int))
                    by (nonlinear_arith)
                    requires
                        (y as int) + 1 <= t.y_max as int,
                        width >= 1,
                ;
                assert((y as int) * (width as int) + (x as int) < (y as int + 1) * (width as int))
                    by (nonlinear_arith)
                    requires
                        (x as int) < (width as int),
                ;
                assert((y as int) * (width as int) >= 0) by (nonlinear_arith)
                    requires
                        y >= 0,
                        width >= 1,
                ;
            }
            proof {
                assert((y as int) * (width as int) + (x as int) < n as int);
            }
            let idx = y * width + x;
            proof {
                vstd::arithmetic::div_mod::lemma_fundamental_div_mod_converse_div(
                    idx as int,
                    width as int,
                    y as int,
                    x as int,
                );
                vstd::arithmetic::div_mod::lemma_fundamental_div_mod_converse_mod(
                    idx as int,
                    width as int,
                    y as int,
                    x as int,
                );
                assert(0 <= (y as int - t.y_min) * (tw as int) + (x as int - t.x_min) < vals@.len())
                    by (nonlinear_arith)
                    requires
                        t.y_min <= y < t.y_max,
                        t.x_min <= x < t.x_max,
                        tw == t.x_max - t.x_min,
                        vals@.len() == (t.x_max - t.x_min) * (t.y_max - t.y_min),
                ;
            }
            let val = vals[(y - t.y_min) * tw + (x - t.x_min)];
            let ghost pre = buffer@;
            buffer.set(idx, Some(val));
            proof {
                assert(buffer@ =~= pre.update(idx as int, Some(val)));
                assert forall|k: int| 0 <= k < buffer@.len() && k != idx implies buffer@[k]
                    == (if spec_tile_owns(t, width as int, k) && (k / (width as int) < y || (k / (
                width as int) == y && k % (width as int) < x + 1)) {
                    Some(
                        vals@[(k / (width as int) - t.y_min) * (t.x_max - t.x_min) + (k % (
                        width as int) - t.x_min)],
                    )
                } else {
                    orig[k]
                }) by {
                    assert(buffer@[k] == pre[k]);
                    if k / (width as int) == y as int && k % (width as int) == x as int {
                        vstd::arithmetic::div_mod::lemma_fundamental_div_mod(k, width as int);
                        assert(k == (width as int) * (k / (width as int)) + k % (width as int));
                        assert((width as int) * (y as int) == (y as int) * (width as int))
                            by (nonlinear_arith);
                        assert(k == idx);
                    }
                    assert(pre[k] == (if spec_tile_owns(t, width as int, k) && (k / (width as int)
                        < y || (k / (width as int) == y && k % (width as int) < x)) {
                        Some(
                            vals@[(k / (width as int) - t.y_min) * (t.x_max - t.x_min) + (k % (
                            width as int) - t.x_min)],
                        )
                    } else {
                        orig[k]
                    }));
                }
            }
            x = x + 1;
        }
        y = y + 1;
    }
    proof {
        assert forall|k: int| 0 <= k < buffer@.len() && spec_tile_owns(t, width as int, k)
            implies k / (width as int) < t.y_max by {}
    }
}

impl Camera {
    /// Renders every tile of the grid in row-major dispatch order and
    /// commits each into the shared row-major pixel buffer. Because
    /// every pixel lies in exactly one tile, a completed render leaves
    /// no slot at its unwritten default: every slot holds a written,
    /// well-formed color.
    #[verifier::loop_isolation(false)]
    pub fn render_tiles(&self, world: &Hittable, s: &mut Sampler, buffer: &mut Vec<Option<Color>>)
        requires
            camera_wf(*self),
            hittable_wf(*world),
            old(buffer)@.len() == self.image_width * self.image_height,
            forall|k: int| 0 <= k < old(buffer)@.len() ==> old(buffer)@[k] is None,
        ensures
            final(buffer)@.len() == old(buffer)@.len(),
            forall|k: int|
                0 <= k < final(buffer)@.len() ==> (#[trigger] final(buffer)@[k] matches Some(c)
                    && color_wf(c)),
    {
        let width = self.image_width;
        let height = self.image_height;
        proof {
            assert(height <= MAX_PIXELS as int) by (nonlinear_arith)
                requires
                    1 <= width,
                    (width as int) * (height as int) <= MAX_PIXELS as int,
                    height == self.image_height,
                    width == self.image_width,
                    camera_wf(*self),
            ;
        }
        let ghost cw = spec_chunk(width as int, WIDTH_PARTITION as int);
        let ghost ch = spec_chunk(height as int, HEIGHT_PARTITION as int);
        let total = width * height;

        let mut tj: usize = 0;
        while tj < HEIGHT_PARTITION
            invariant
                tj <= HEIGHT_PARTITION,
                buffer@.len() == total,
                forall|k: int|
                    #![trigger buffer@[k]]
                    0 <= k < total ==> ((k / (width as int)) / ch < tj ==> buffer@[k] is Some),
                forall|k: int|
                    #![trigger buffer@[k]]
                    0 <= k < total ==> (buffer@[k] matches Some(c) ==> color_wf(c)),
            decreases HEIGHT_PARTITION - tj,
        {
            let mut ti: usize = 0;
            while ti < WIDTH_PARTITION
                invariant
                    ti <= WIDTH_PARTITION,
                    buffer@.len() == total,
                    forall|k: int|
                        #![trigger buffer@[k]]
                        0 <= k < total ==> ((k / (width as int)) / ch < tj || ((k / (
                        width as int)) / ch == tj && (k % (width as int)) / cw < ti)
                            ==> buffer@[k] is Some),
                    forall|k: int|
                        #![trigger buffer@[k]]
                        0 <= k < total ==> (buffer@[k] matches Some(c) ==> color_wf(c)),
                decreases WIDTH_PARTITION - ti,
            {
                let tile = tile_bounds(ti, tj, WIDTH_PARTITION, HEIGHT_PARTITION, width, height);
                proof {
                    assert((tile.y_max as int) * (width as int) <= (height as int) * (width as int)
                        && (height as int) * (width as int) == total) by (nonlinear_arith)
                        requires
                            tile.y_max <= height,
                            width >= 1,
                            total == width * height,
                    ;
                }
                let local = self.render_tile(world, tile, s);
                commit_tile(buffer, width, tile, &local);
                proof {
                    let tw = tile.x_max - tile.x_min;
                    assert forall|k: int| 0 <= k < total implies ((k / (width as int)) / ch < tj
                        || ((k / (width as int)) / ch == tj && (k % (width as int)) / cw < ti + 1)
                        ==> #[trigger] buffer@[k] is Some) && (buffer@[k] matches Some(c)
                        ==> color_wf(c)) by {
                        let y = k / (width as int);
                        let x = k % (width as int);
                        vstd::arithmetic::div_mod::lemma_mod_division_less_than_divisor(
                            k,
                            width as int,
                        );
                        assert(y < height as int) by {
                            assert(k < (width as int) * (height as int)) by (nonlinear_arith)
                                requires
                                    k < total,
                                    total == width * height,
                            ;
                            vstd::arithmetic::div_mod::lemma_multiply_divide_lt(
                                k,
                                width as int,
                                height as int,
                            );
                        }
                        vstd::arithmetic::div_mod::lemma_div_pos_is_pos(k, width as int);
                        lemma_chunks_cover(width as int, WIDTH_PARTITION as int, x);
                        lemma_chunks_cover(height as int, HEIGHT_PARTITION as int, y);
                        if spec_tile_owns(tile, width as int, k) {
                            assert(x / cw == ti && y / ch == tj);
                            assert(0 <= (y - tile.y_min) * (tw as int) + (x - tile.x_min)
                                < local@.len()) by (nonlinear_arith)
                                requires
                                    tile.y_min <= y < tile.y_max,
                                    tile.x_min <= x < tile.x_max,
                                    tw == tile.x_max - tile.x_min,
                                    local@.len() == (tile.x_max - tile.x_min) * (tile.y_max
                                        - tile.y_min),
                            ;
                        } else {
                            if y / ch == tj && x / cw == ti {
                                assert(spec_tile_lo(ti as int, width as int, WIDTH_PARTITION as int)
                                    <= x < spec_tile_hi(
                                    ti as int,
                                    width as int,
                                    WIDTH_PARTITION as int,
                                ));
                                assert(spec_tile_lo(
                                    tj as int,
                                    height as int,
                                    HEIGHT_PARTITION as int,
                                ) <= y < spec_tile_hi(
                                    tj as int,
                                    height as int,
                                    HEIGHT_PARTITION as int,
                                ));
                                assert(spec_tile_owns(tile, width as int, k));
                            }
                        }
                    }
                }
                ti = ti + 1;
            }
            proof {
                assert forall|k: int| 0 <= k < total implies ((k / (width as int)) / ch < tj + 1
                    ==> #[trigger] buffer@[k] is Some) by {
                    let y = k / (width as int);
                    let x = k % (width as int);
                    vstd::arithmetic::div_mod::lemma_mod_division_less_than_divisor(
                        k,
                        width as int,
                    );
                    vstd::arithmetic::div_mod::lemma_div_pos_is_pos(k, width as int);
                    lemma_chunks_cover(width as int, WIDTH_PARTITION as int, x);
                }
            }
            tj = tj + 1;
        }

        proof {
            assert forall|k: int| 0 <= k < total implies #[trigger] buffer@[k] is Some by {
                let y = k / (width as int);
                assert(y < height as int) by {
                    assert(k < (width as int) * (height as int)) by (nonlinear_arith)
                        requires
                            k < total,
                            total == width * height,
                    ;
                    vstd::arithmetic::div_mod::lemma_multiply_divide_lt(
                        k,
                        width as int,
                        height as int,
                    );
                }
                vstd::arithmetic::div_mod::lemma_div_pos_is_pos(k, width as int);
                lemma_chunks_cover(height as int, HEIGHT_PARTITION as int, y);
            }
        }
    }

    /// Renders the full image through the tile grid: the shared buffer
    /// starts with every slot at its unwritten default, the tile loop
    /// fills every slot exactly once, and the written colors are handed
    /// back in row-major order.
    pub fn render_tiled(&self, world: &Hittable, s: &mut Sampler) -> (pixels: Vec<Color>)
        requires
            camera_wf(*self),
            hittable_wf(*world),
        ensures
            pixels@.len() == self.image_width * self.image_height,
            forall|k: int| 0 <= k < pixels@.len() ==> color_wf(#[trigger] pixels@[k]),
    {
        let width = self.image_width;
        let height = self.image_height;
        proof {
            assert((width as int) * (height as int) <= MAX_PIXELS as int);
        }
        let total = width * height;

        let mut buffer: Vec<Option<Color>> = Vec::new();
        let mut k: usize = 0;
        while k < total
            invariant
                k <= total,
                buffer@.len() == k,
                forall|i: int| 0 <= i < k ==> buffer@[i] is None,
            decreases total - k,
        {
            buffer.push(None);
            k = k + 1;
        }

        self.render_tiles(world, s, &mut buffer);

        let mut out: Vec<Color> = Vec::new();
        let mut k: usize = 0;
        while k < total
            invariant
                k <= total,
                total == buffer@.len(),
                out@.len() == k,
                forall|i: int|
                    0 <= i < buffer@.len() ==> (#[trigger] buffer@[i] matches Some(c) && color_wf(
                        c,
                    )),
                forall|i: int| 0 <= i < k ==> color_wf(#[trigger] out@[i]),
            decreases total - k,
        {
            let cell = buffer[k];
            out.push(cell.unwrap());
            k = k + 1;
        }
        out
    }
}

} // verus!
