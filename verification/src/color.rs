//! Colors as fixed-point RGB triples, and their quantization to output
//! bytes (gamma correction, intensity clamping, scaling).
use vstd::prelude::*;

use crate::fixed::{fx_mul_raw, fx_sqrt_raw, fx_wf, tdiv, Fx, FX_SCALE};
use crate::interval::{spec_clamp, Interval};
use crate::sampler::{random_double, random_double_in_range, Sampler};
use crate::vec3::{spec_vadd, spec_vmul, spec_vscale, v_wf, Vec3};

verus! {

/// Raw payload of the upper intensity clamp (just below one), applied
/// before quantization.
pub const INTENSITY_MAX_RAW: i128 = 65480;

/// Raw payload of the quantization scale (just below 256).
pub const BYTE_SCALE_RAW: i128 = 16777150;

/// An RGB radiance triple.
#[derive(Clone, Copy, Debug, PartialEq, Eq, Structural)]
pub struct Color(pub Vec3);

/// Well-formedness: the three channels are well-formed scalars.
pub open spec fn color_wf(c: Color) -> bool {
    v_wf(c.0)
}

/// Channelwise sum.
pub open spec fn spec_cadd(a: Color, b: Color) -> Color {
    Color(spec_vadd(a.0, b.0))
}

/// Channelwise product (attenuation).
pub open spec fn spec_cmul(a: Color, b: Color) -> Color {
    Color(spec_vmul(a.0, b.0))
}

/// Scaling by a scalar.
pub open spec fn spec_cscale(a: Color, t: Fx) -> Color {
    Color(spec_vscale(a.0, t))
}

/// Gamma correction with the square-root transfer function; zero on a
/// nonpositive channel.
pub open spec fn spec_gamma(c: Fx) -> Fx {
    if c.raw > 0 {
        Fx { raw: fx_sqrt_raw(c.raw as int) as i128 }
    } else {
        Fx { raw: 0 }
    }
}

/// The intensity range a channel is clamped into before quantization.
pub open spec fn spec_intensity() -> Interval {
    Interval { min: Fx { raw: 0 }, max: Fx { raw: INTENSITY_MAX_RAW } }
}

/// Quantization of one linear channel to an output byte: gamma-correct,
/// clamp into the intensity range, scale to just below 256, truncate.
pub open spec fn spec_channel_byte(c: Fx) -> int {
    tdiv(fx_mul_raw(spec_clamp(spec_intensity(), spec_gamma(c)).raw as int, BYTE_SCALE_RAW as int), FX_SCALE as int)
}

impl Color {
    /// Builds a color from three channels.
    pub fn new(r: Fx, g: Fx, b: Fx) -> (c: Color)
        ensures
            c == Color(Vec3 { x: r, y: g, z: b }),
    {
        Color(Vec3 { x: r, y: g, z: b })
    }

    /// Black: every channel zero.
    pub fn black() -> (c: Color)
        ensures
            c.0.x.raw == 0 && c.0.y.raw == 0 && c.0.z.raw == 0,
            color_wf(c),
    {
        Color(Vec3::zero())
    }

    /// Opaque white: every channel one.
    pub open spec fn spec_white() -> Color {
        Color(
            Vec3 {
                x: Fx { raw: FX_SCALE },
                y: Fx { raw: FX_SCALE },
                z: Fx { raw: FX_SCALE },
            },
        )
    }

    /// Opaque white: every channel one.
    pub fn white() -> (c: Color)
        ensures
            c == Color::spec_white(),
            color_wf(c),
    {
        Color(Vec3 { x: Fx { raw: FX_SCALE }, y: Fx { raw: FX_SCALE }, z: Fx { raw: FX_SCALE } })
    }

    /// The red channel.
    pub fn r(&self) -> (v: Fx)
        ensures
            v == self.0.x,
    {
        self.0.x
    }

    /// The green channel.
    pub fn g(&self) -> (v: Fx)
        ensures
            v == self.0.y,
    {
        self.0.y
    }

    /// The blue channel.
    pub fn b(&self) -> (v: Fx)
        ensures
            v == self.0.z,
    {
        self.0.z
    }

    /// Channelwise sum.
    pub fn add(self, other: Color) -> (c: Color)
        requires
            color_wf(self),
            color_wf(other),
        ensures
            c == spec_cadd(self, other),
            color_wf(c),
    {
        Color(self.0.add(other.0))
    }

    /// Channelwise product: attenuation of one color by another.
    pub fn mul(self, other: Color) -> (c: Color)
        requires
            color_wf(self),
            color_wf(other),
        ensures
            c == spec_cmul(self, other),
            color_wf(c),
    {
        Color(self.0.mul(other.0))
    }

    /// Scaling of every channel by a scalar.
    pub fn scale(self, t: Fx) -> (c: Color)
        requires
            color_wf(self),
            fx_wf(t),
        ensures
            c == spec_cscale(self, t),
            color_wf(c),
    {
        Color(self.0.scale(t))
    }

    /// A color with each channel drawn uniformly from `[0, 1)`.
    pub fn random(s: &mut Sampler) -> (c: Color)
        ensures
            color_wf(c),
            0 <= c.0.x.raw < FX_SCALE && 0 <= c.0.y.raw < FX_SCALE && 0 <= c.0.z.raw < FX_SCALE,
    {
        let r = random_double(s);
        let g = random_double(s);
        let b = random_double(s);
        Color(Vec3 { x: r, y: g, z: b })
    }

    /// A color with each channel drawn uniformly from `[min, max)`.
    pub fn random_range(s: &mut Sampler, min: Fx, max: Fx) -> (c: Color)
        requires
            fx_wf(min),
            fx_wf(max),
            min.raw <= max.raw,
        ensures
            color_wf(c),
            min.raw <= c.0.x.raw <= max.raw && min.raw <= c.0.y.raw <= max.raw && min.raw
                <= c.0.z.raw <= max.raw,
    {
        let r = random_double_in_range(s, min, max);
        let g = random_double_in_range(s, min, max);
        let b = random_double_in_range(s, min, max);
        Color(Vec3 { x: r, y: g, z: b })
    }
}

/// Gamma correction of one linear channel.
pub fn linear_to_gamma(linear_component: Fx) -> (r: Fx)
    requires
        fx_wf(linear_component),
    ensures
        r == spec_gamma(linear_component),
        fx_wf(r),
        r.raw >= 0,
{
    if linear_component.raw > 0 {
        linear_component.sqrt()
    } else {
        Fx { raw: 0 }
    }
}

/// Quantizes one linear channel to its output byte.
pub fn channel_byte(c: Fx) -> (b: u8)
    requires
        fx_wf(c),
    ensures
        b as int == spec_channel_byte(c),
{
    let g = linear_to_gamma(c);
    let intensity = Interval { min: Fx { raw: 0 }, max: Fx { raw: INTENSITY_MAX_RAW } };
    let clamped = intensity.clamp(g);
    proof {
        assert(0 <= clamped.raw <= INTENSITY_MAX_RAW);
        assert((clamped.raw as int) * (BYTE_SCALE_RAW as int) <= INTENSITY_MAX_RAW as int
            * (BYTE_SCALE_RAW as int) && 0 <= (clamped.raw as int) * (BYTE_SCALE_RAW as int))
            by (nonlinear_arith)
            requires
                0 <= clamped.raw <= INTENSITY_MAX_RAW,
        ;
    }
    let scaled = clamped.mul(Fx { raw: BYTE_SCALE_RAW });
    proof {
        vstd::arithmetic::div_mod::lemma_div_is_ordered(
            0,
            (clamped.raw as int) * (BYTE_SCALE_RAW as int),
            FX_SCALE as int,
        );
        vstd::arithmetic::div_mod::lemma_div_is_ordered(
            (clamped.raw as int) * (BYTE_SCALE_RAW as int),
            1098567782000,
            FX_SCALE as int,
        );
        assert(1098567782000int / 65536int == 16762814int);
        assert(0 <= scaled.raw <= 16762814);
        vstd::arithmetic::div_mod::lemma_div_is_ordered(scaled.raw as int, 16762814, FX_SCALE as int);
        assert(16762814int / 65536int == 255int);
    }
    let b = int_part_byte(scaled);
    b
}

/// Extracts the integer part of a nonnegative fixed-point scalar below
/// 256 as a byte.
fn int_part_byte(x: Fx) -> (b: u8)
    requires
        0 <= x.raw,
        tdiv(x.raw as int, FX_SCALE as int) < 256,
    ensures
        b as int == tdiv(x.raw as int, FX_SCALE as int),
{
    let q: u128 = (x.raw as u128) / (FX_SCALE as u128);
    q as u8
}

/// The three output bytes (red, green, blue) of a pixel color.
pub fn color_bytes(pixel_color: Color) -> (bytes: (u8, u8, u8))
    requires
        color_wf(pixel_color),
    ensures
        bytes.0 as int == spec_channel_byte(pixel_color.0.x),
        bytes.1 as int == spec_channel_byte(pixel_color.0.y),
        bytes.2 as int == spec_channel_byte(pixel_color.0.z),
{
    let r = channel_byte(pixel_color.0.x);
    let g = channel_byte(pixel_color.0.y);
    let b = channel_byte(pixel_color.0.z);
    (r, g, b)
}

} // verus!
