//! Three-component fixed-point vectors, used both as spatial points and
//! as free directions.
use vstd::prelude::*;

use crate::fixed::{
    clip, fx_add_raw, fx_div_raw, fx_mul_raw, fx_neg_raw, fx_sqrt_raw, fx_sub_raw, fx_wf, spec_fx,
    tdiv, Fx, FX_SCALE,
};
use crate::sampler::{random_double_in_range, Sampler};

verus! {

/// Magnitude (in raw payload units) under which a component counts as
/// vanishing; used to guard degenerate scatter directions.
pub const NEAR_ZERO_RAW: i128 = 8;

/// Half-width (in raw payload units) of the accepted band around one
/// for the squared length of a normalized direction: one percent.
pub const UNIT_LEN_TOL_RAW: i128 = 655;

/// A vector of three fixed-point components.
#[derive(Clone, Copy, Debug, PartialEq, Eq, Structural)]
pub struct Vec3 {
    pub x: Fx,
    pub y: Fx,
    pub z: Fx,
}

/// A location in space; the same representation as a free vector.
pub type Point3 = Vec3;

/// Well-formedness: every component is a well-formed scalar.
pub open spec fn v_wf(v: Vec3) -> bool {
    fx_wf(v.x) && fx_wf(v.y) && fx_wf(v.z)
}

/// Componentwise sum.
pub open spec fn spec_vadd(a: Vec3, b: Vec3) -> Vec3 {
    Vec3 {
        x: spec_fx(fx_add_raw(a.x.raw as int, b.x.raw as int)),
        y: spec_fx(fx_add_raw(a.y.raw as int, b.y.raw as int)),
        z: spec_fx(fx_add_raw(a.z.raw as int, b.z.raw as int)),
    }
}

/// Componentwise difference.
pub open spec fn spec_vsub(a: Vec3, b: Vec3) -> Vec3 {
    Vec3 {
        x: spec_fx(fx_sub_raw(a.x.raw as int, b.x.raw as int)),
        y: spec_fx(fx_sub_raw(a.y.raw as int, b.y.raw as int)),
        z: spec_fx(fx_sub_raw(a.z.raw as int, b.z.raw as int)),
    }
}

/// Componentwise negation.
pub open spec fn spec_vneg(a: Vec3) -> Vec3 {
    Vec3 {
        x: spec_fx(fx_neg_raw(a.x.raw as int)),
        y: spec_fx(fx_neg_raw(a.y.raw as int)),
        z: spec_fx(fx_neg_raw(a.z.raw as int)),
    }
}

/// Componentwise (Hadamard) product.
pub open spec fn spec_vmul(a: Vec3, b: Vec3) -> Vec3 {
    Vec3 {
        x: spec_fx(fx_mul_raw(a.x.raw as int, b.x.raw as int)),
        y: spec_fx(fx_mul_raw(a.y.raw as int, b.y.raw as int)),
        z: spec_fx(fx_mul_raw(a.z.raw as int, b.z.raw as int)),
    }
}

/// Scaling by a scalar.
pub open spec fn spec_vscale(a: Vec3, t: Fx) -> Vec3 {
    Vec3 {
        x: spec_fx(fx_mul_raw(a.x.raw as int, t.raw as int)),
        y: spec_fx(fx_mul_raw(a.y.raw as int, t.raw as int)),
        z: spec_fx(fx_mul_raw(a.z.raw as int, t.raw as int)),
    }
}

/// Division by a scalar.
pub open spec fn spec_vdiv(a: Vec3, t: Fx) -> Vec3 {
    Vec3 {
        x: spec_fx(fx_div_raw(a.x.raw as int, t.raw as int)),
        y: spec_fx(fx_div_raw(a.y.raw as int, t.raw as int)),
        z: spec_fx(fx_div_raw(a.z.raw as int, t.raw as int)),
    }
}

/// Dot product, accumulated left to right.
pub open spec fn spec_dot(a: Vec3, b: Vec3) -> Fx {
    spec_fx(
        fx_add_raw(
            fx_add_raw(
                fx_mul_raw(a.x.raw as int, b.x.raw as int),
                fx_mul_raw(a.y.raw as int, b.y.raw as int),
            ),
            fx_mul_raw(a.z.raw as int, b.z.raw as int),
        ),
    )
}

/// Cross product.
pub open spec fn spec_cross(a: Vec3, b: Vec3) -> Vec3 {
    Vec3 {
        x: spec_fx(
            fx_sub_raw(
                fx_mul_raw(a.y.raw as int, b.z.raw as int),
                fx_mul_raw(a.z.raw as int, b.y.raw as int),
            ),
        ),
        y: spec_fx(
            fx_sub_raw(
                fx_mul_raw(a.z.raw as int, b.x.raw as int),
                fx_mul_raw(a.x.raw as int, b.z.raw as int),
            ),
        ),
        z: spec_fx(
            fx_sub_raw(
                fx_mul_raw(a.x.raw as int, b.y.raw as int),
                fx_mul_raw(a.y.raw as int, b.x.raw as int),
            ),
        ),
    }
}

/// Squared Euclidean length.
pub open spec fn spec_len_sq(a: Vec3) -> Fx {
    spec_dot(a, a)
}

/// Euclidean length: square root of the squared length.
pub open spec fn spec_len(a: Vec3) -> Fx {
    Fx { raw: fx_sqrt_raw(spec_len_sq(a).raw as int) as i128 }
}

/// Normalization: division by the length. A zero length saturates the
/// components; callers keep directions away from zero.
pub open spec fn spec_unit(a: Vec3) -> Vec3 {
    spec_vdiv(a, spec_len(a))
}

/// Whether every component is vanishingly small.
pub open spec fn spec_near_zero(a: Vec3) -> bool {
    -NEAR_ZERO_RAW < a.x.raw < NEAR_ZERO_RAW && -NEAR_ZERO_RAW < a.y.raw < NEAR_ZERO_RAW
        && -NEAR_ZERO_RAW < a.z.raw < NEAR_ZERO_RAW
}

/// Mirror reflection about a normal: `v - 2*dot(v,n)*n`.
pub open spec fn spec_reflect(v: Vec3, n: Vec3) -> Vec3 {
    spec_vsub(v, spec_vscale(n, spec_fx(fx_mul_raw(spec_dot(v, n).raw as int, 2 * FX_SCALE))))
}

/// Snell refraction of a unit direction `uv` about a unit normal `n`
/// with refraction ratio `eta`: the perpendicular component
/// `eta*(uv + cos_theta*n)` plus the parallel component
/// `-sqrt(|1 - |perp|^2|)*n`, with `cos_theta = min(dot(-uv,n), 1)`.
pub open spec fn spec_refract(uv: Vec3, n: Vec3, eta: Fx) -> Vec3 {
    let cos_theta = if spec_dot(spec_vneg(uv), n).raw <= FX_SCALE {
        spec_dot(spec_vneg(uv), n)
    } else {
        Fx { raw: FX_SCALE }
    };
    let r_perp = spec_vscale(spec_vadd(uv, spec_vscale(n, cos_theta)), eta);
    let one_minus = fx_sub_raw(FX_SCALE as int, spec_len_sq(r_perp).raw as int);
    let mag = if one_minus < 0 {
        fx_neg_raw(one_minus)
    } else {
        one_minus
    };
    let par_scale = spec_fx(fx_neg_raw(fx_sqrt_raw(mag)));
    spec_vadd(r_perp, spec_vscale(n, par_scale))
}

impl Vec3 {
    /// Builds a vector from three components.
    pub fn new(x: Fx, y: Fx, z: Fx) -> (r: Vec3)
        ensures
            r == (Vec3 { x, y, z }),
    {
        Vec3 { x, y, z }
    }

    /// The zero vector.
    pub fn zero() -> (r: Vec3)
        ensures
            r.x.raw == 0 && r.y.raw == 0 && r.z.raw == 0,
            v_wf(r),
    {
        Vec3 { x: Fx { raw: 0 }, y: Fx { raw: 0 }, z: Fx { raw: 0 } }
    }

    /// First component.
    pub fn x(&self) -> (r: Fx)
        ensures
            r == self.x,
    {
        self.x
    }

    /// Second component.
    pub fn y(&self) -> (r: Fx)
        ensures
            r == self.y,
    {
        self.y
    }

    /// Third component.
    pub fn z(&self) -> (r: Fx)
        ensures
            r == self.z,
    {
        self.z
    }

    /// Componentwise sum.
    pub fn add(self, other: Vec3) -> (r: Vec3)
        requires
            v_wf(self),
            v_wf(other),
        ensures
            r == spec_vadd(self, other),
            v_wf(r),
    {
        Vec3 { x: self.x.add(other.x), y: self.y.add(other.y), z: self.z.add(other.z) }
    }

    /// Componentwise difference.
    pub fn sub(self, other: Vec3) -> (r: Vec3)
        requires
            v_wf(self),
            v_wf(other),
        ensures
            r == spec_vsub(self, other),
            v_wf(r),
    {
        Vec3 { x: self.x.sub(other.x), y: self.y.sub(other.y), z: self.z.sub(other.z) }
    }

    /// Componentwise negation.
    pub fn neg(self) -> (r: Vec3)
        requires
            v_wf(self),
        ensures
            r == spec_vneg(self),
            v_wf(r),
    {
        Vec3 { x: self.x.neg(), y: self.y.neg(), z: self.z.neg() }
    }

    /// Componentwise (Hadamard) product.
    pub fn mul(self, other: Vec3) -> (r: Vec3)
        requires
            v_wf(self),
            v_wf(other),
        ensures
            r == spec_vmul(self, other),
            v_wf(r),
    {
        Vec3 { x: self.x.mul(other.x), y: self.y.mul(other.y), z: self.z.mul(other.z) }
    }

    /// Scaling by a scalar.
    pub fn scale(self, t: Fx) -> (r: Vec3)
        requires
            v_wf(self),
            fx_wf(t),
        ensures
            r == spec_vscale(self, t),
            v_wf(r),
    {
        Vec3 { x: self.x.mul(t), y: self.y.mul(t), z: self.z.mul(t) }
    }

    /// Division by a scalar.
    pub fn div(self, t: Fx) -> (r: Vec3)
        requires
            v_wf(self),
            fx_wf(t),
        ensures
            r == spec_vdiv(self, t),
            v_wf(r),
    {
        Vec3 { x: self.x.div(t), y: self.y.div(t), z: self.z.div(t) }
    }

    /// Dot product.
    pub fn dot(&self, other: Vec3) -> (r: Fx)
        requires
            v_wf(*self),
            v_wf(other),
        ensures
            r == spec_dot(*self, other),
            fx_wf(r),
    {
        self.x.mul(other.x).add(self.y.mul(other.y)).add(self.z.mul(other.z))
    }

    /// Squared Euclidean length.
    pub fn length_squared(&self) -> (r: Fx)
        requires
            v_wf(*self),
        ensures
            r == spec_len_sq(*self),
            fx_wf(r),
    {
        self.dot(*self)
    }

    /// Euclidean length.
    pub fn length(&self) -> (r: Fx)
        requires
            v_wf(*self),
        ensures
            r == spec_len(*self),
            fx_wf(r),
    {
        let sq = self.length_squared();
        sq.sqrt()
    }

    /// The vector rescaled to unit length (components saturate when the
    /// length is zero).
    pub fn unit_vector(&self) -> (r: Vec3)
        requires
            v_wf(*self),
        ensures
            r == spec_unit(*self),
            v_wf(r),
    {
        let len = self.length();
        self.div(len)
    }

    /// Whether every component is vanishingly small.
    pub fn near_zero(&self) -> (r: bool)
        requires
            v_wf(*self),
        ensures
            r == spec_near_zero(*self),
    {
        let ax = self.x.abs();
        let ay = self.y.abs();
        let az = self.z.abs();
        ax.raw < NEAR_ZERO_RAW && ay.raw < NEAR_ZERO_RAW && az.raw < NEAR_ZERO_RAW
    }

    /// Mirror reflection of `self` about the normal `n`.
    pub fn reflect(self, n: Vec3) -> (r: Vec3)
        requires
            v_wf(self),
            v_wf(n),
        ensures
            r == spec_reflect(self, n),
            v_wf(r),
    {
        reflect(self, n)
    }
}

impl Default for Vec3 {
    /// The zero vector.
    fn default() -> (r: Vec3)
        ensures
            r == (Vec3 { x: Fx { raw: 0 }, y: Fx { raw: 0 }, z: Fx { raw: 0 } }),
    {
        Vec3::zero()
    }
}

/// Mirror reflection `v - 2*dot(v,n)*n`.
pub fn reflect(v: Vec3, n: Vec3) -> (r: Vec3)
    requires
        v_wf(v),
        v_wf(n),
    ensures
        r == spec_reflect(v, n),
        v_wf(r),
{
    let d = v.dot(n);
    let two = Fx { raw: 2 * FX_SCALE };
    v.sub(n.scale(d.mul(two)))
}

/// Snell refraction of a unit direction about a unit normal.
pub fn refract(uv: Vec3, n: Vec3, etai_over_etat: Fx) -> (r: Vec3)
    requires
        v_wf(uv),
        v_wf(n),
        fx_wf(etai_over_etat),
    ensures
        r == spec_refract(uv, n, etai_over_etat),
        v_wf(r),
{
    let d = uv.neg().dot(n);
    let cos_theta = d.min(Fx { raw: FX_SCALE });
    let r_out_perp = uv.add(n.scale(cos_theta)).scale(etai_over_etat);
    let one_minus = Fx { raw: FX_SCALE }.sub(r_out_perp.length_squared());
    let par_scale = one_minus.abs().sqrt().neg();
    r_out_perp.add(n.scale(par_scale))
}

/// Cross product of two vectors.
pub fn cross(u: Vec3, v: Vec3) -> (r: Vec3)
    requires
        v_wf(u),
        v_wf(v),
    ensures
        r == spec_cross(u, v),
        v_wf(r),
{
    Vec3 {
        x: u.y.mul(v.z).sub(u.z.mul(v.y)),
        y: u.z.mul(v.x).sub(u.x.mul(v.z)),
        z: u.x.mul(v.y).sub(u.y.mul(v.x)),
    }
}

/// A vector with each component drawn uniformly from `[0, 1)`.
pub fn random_vec3(s: &mut Sampler) -> (r: Vec3)
    ensures
        v_wf(r),
        0 <= r.x.raw < FX_SCALE && 0 <= r.y.raw < FX_SCALE && 0 <= r.z.raw < FX_SCALE,
{
    let x = s.next_unit();
    let y = s.next_unit();
    let z = s.next_unit();
    Vec3 { x, y, z }
}

/// A vector with each component drawn uniformly from `[min, max)`.
pub fn random_vec3_in_range(s: &mut Sampler, min: Fx, max: Fx) -> (r: Vec3)
    requires
        fx_wf(min),
        fx_wf(max),
        min.raw <= max.raw,
    ensures
        v_wf(r),
        min.raw <= r.x.raw <= max.raw && min.raw <= r.y.raw <= max.raw && min.raw <= r.z.raw
            <= max.raw,
{
    let x = random_double_in_range(s, min, max);
    let y = random_double_in_range(s, min, max);
    let z = random_double_in_range(s, min, max);
    Vec3 { x, y, z }
}

/// Whether a vector's squared length lies within the accepted band
/// around one: the result of normalization, up to fixed-point
/// truncation.
pub open spec fn spec_near_unit(v: Vec3) -> bool {
    FX_SCALE - UNIT_LEN_TOL_RAW <= spec_len_sq(v).raw <= FX_SCALE + UNIT_LEN_TOL_RAW
}

/// A direction of (approximately) unit length: a sample is drawn by
/// rejection from the unit ball, normalized, and accepted only when its
/// squared length lands in the band around one; the exact unit axis
/// stands in if every attempt is rejected.
pub fn random_unit_vector(s: &mut Sampler) -> (r: Vec3)
    ensures
        v_wf(r),
        spec_near_unit(r),
        !spec_near_zero(r),
{
    let neg_one = Fx { raw: -FX_SCALE };
    let one = Fx { raw: FX_SCALE };
    let mut attempts: usize = 0;
    while attempts < 64
        invariant
            neg_one.raw == -FX_SCALE,
            one.raw == FX_SCALE,
        decreases 64 - attempts,
    {
        let p = random_vec3_in_range(s, neg_one, one);
        let length_squared = p.length_squared();
        if length_squared.raw > NEAR_ZERO_RAW && length_squared.raw <= FX_SCALE {
            let candidate = p.div(length_squared.sqrt());
            let candidate_len_sq = candidate.length_squared();
            if FX_SCALE - UNIT_LEN_TOL_RAW <= candidate_len_sq.raw && candidate_len_sq.raw
                <= FX_SCALE + UNIT_LEN_TOL_RAW {
                proof {
                    lemma_near_unit_not_near_zero(candidate);
                }
                return candidate;
            }
        }
        attempts = attempts + 1;
    }
    let axis = Vec3 { x: Fx { raw: 0 }, y: Fx { raw: FX_SCALE }, z: Fx { raw: 0 } };
    proof {
        assert(fx_mul_raw(0, 0) == 0);
        assert(fx_mul_raw(FX_SCALE as int, FX_SCALE as int) == FX_SCALE as int);
        assert(spec_len_sq(axis).raw == FX_SCALE);
    }
    axis
}

/// A vector whose squared length sits in the band around one has some
/// component of substantial magnitude.
proof fn lemma_near_unit_not_near_zero(v: Vec3)
    requires
        v_wf(v),
        spec_near_unit(v),
    ensures
        !spec_near_zero(v),
{
    if spec_near_zero(v) {
        assert((v.x.raw as int) * (v.x.raw as int) < NEAR_ZERO_RAW * NEAR_ZERO_RAW)
            by (nonlinear_arith)
            requires
                -NEAR_ZERO_RAW < v.x.raw < NEAR_ZERO_RAW,
        ;
        assert((v.y.raw as int) * (v.y.raw as int) < NEAR_ZERO_RAW * NEAR_ZERO_RAW)
            by (nonlinear_arith)
            requires
                -NEAR_ZERO_RAW < v.y.raw < NEAR_ZERO_RAW,
        ;
        assert((v.z.raw as int) * (v.z.raw as int) < NEAR_ZERO_RAW * NEAR_ZERO_RAW)
            by (nonlinear_arith)
            requires
                -NEAR_ZERO_RAW < v.z.raw < NEAR_ZERO_RAW,
        ;
        vstd::arithmetic::div_mod::lemma_div_pos_is_pos(
            (v.x.raw as int) * (v.x.raw as int),
            FX_SCALE as int,
        );
        vstd::arithmetic::div_mod::lemma_div_pos_is_pos(
            (v.y.raw as int) * (v.y.raw as int),
            FX_SCALE as int,
        );
        vstd::arithmetic::div_mod::lemma_div_pos_is_pos(
            (v.z.raw as int) * (v.z.raw as int),
            FX_SCALE as int,
        );
        vstd::arithmetic::div_mod::lemma_div_is_ordered(
            (v.x.raw as int) * (v.x.raw as int),
            NEAR_ZERO_RAW * NEAR_ZERO_RAW,
            FX_SCALE as int,
        );
        vstd::arithmetic::div_mod::lemma_div_is_ordered(
            (v.y.raw as int) * (v.y.raw as int),
            NEAR_ZERO_RAW * NEAR_ZERO_RAW,
            FX_SCALE as int,
        );
        vstd::arithmetic::div_mod::lemma_div_is_ordered(
            (v.z.raw as int) * (v.z.raw as int),
            NEAR_ZERO_RAW * NEAR_ZERO_RAW,
            FX_SCALE as int,
        );
        assert(spec_len_sq(v).raw < FX_SCALE - UNIT_LEN_TOL_RAW);
        assert(false);
    }
}

/// Dividing a vector by a radius of at least one nearly normalizes it,
/// whenever its squared length matches the squared radius to within
/// `k` quanta: the quotient's squared length lands within `k + 21`
/// quanta of one. (For radii below one the division amplifies the
/// fixed-point quantization of the vector, and no such bound holds.)
pub proof fn lemma_vdiv_near_unit(v: Vec3, radius: Fx, k: int)
    requires
        v_wf(v),
        fx_wf(radius),
        FX_SCALE <= radius.raw <= 0x20_0000_0000,
        -2 * radius.raw <= v.x.raw <= 2 * radius.raw,
        -2 * radius.raw <= v.y.raw <= 2 * radius.raw,
        -2 * radius.raw <= v.z.raw <= 2 * radius.raw,
        0 <= k,
        fx_mul_raw(radius.raw as int, radius.raw as int) - k <= spec_len_sq(v).raw,
        spec_len_sq(v).raw <= fx_mul_raw(radius.raw as int, radius.raw as int) + k,
    ensures
        FX_SCALE - (k + 21) <= spec_len_sq(spec_vdiv(v, radius)).raw,
        spec_len_sq(spec_vdiv(v, radius)).raw <= FX_SCALE + (k + 21),
{
    let s = FX_SCALE as int;
    let r = radius.raw as int;
    let d1 = v.x.raw as int;
    let d2 = v.y.raw as int;
    let d3 = v.z.raw as int;
    let q1 = tdiv(d1 * s, r);
    let q2 = tdiv(d2 * s, r);
    let q3 = tdiv(d3 * s, r);

    // the three squared input components, exactly up to one quantum
    crate::fixed::lemma_square_term(d1, 2 * r);
    crate::fixed::lemma_square_term(d2, 2 * r);
    crate::fixed::lemma_square_term(d3, 2 * r);
    let dd = d1 * d1 + d2 * d2 + d3 * d3;
    let ll = spec_len_sq(v).raw as int;
    assert(ll == fx_mul_raw(d1, d1) + fx_mul_raw(d2, d2) + fx_mul_raw(d3, d3));
    assert(dd - 3 * (s - 1) <= ll * s <= dd) by (nonlinear_arith)
        requires
            ll == fx_mul_raw(d1, d1) + fx_mul_raw(d2, d2) + fx_mul_raw(d3, d3),
            fx_mul_raw(d1, d1) * s <= d1 * d1 <= fx_mul_raw(d1, d1) * s + (s - 1),
            fx_mul_raw(d2, d2) * s <= d2 * d2 <= fx_mul_raw(d2, d2) * s + (s - 1),
            fx_mul_raw(d3, d3) * s <= d3 * d3 <= fx_mul_raw(d3, d3) * s + (s - 1),
            dd == d1 * d1 + d2 * d2 + d3 * d3,
    ;

    // the squared radius, exactly up to one quantum
    crate::fixed::lemma_square_term(r, r);
    let rr2 = fx_mul_raw(r, r);
    assert(rr2 * s <= r * r <= rr2 * s + (s - 1));

    // the accuracy hypothesis, lifted from quanta to raw squares
    assert(r * r - (s * k + 4 * s) <= dd <= r * r + (s * k + 4 * s)) by (nonlinear_arith)
        requires
            rr2 - k <= ll <= rr2 + k,
            dd - 3 * (s - 1) <= ll * s <= dd,
            rr2 * s <= r * r <= rr2 * s + (s - 1),
            s == 65536,
            k >= 0,
    ;

    // each quotient component, with its rescaled-square bound
    crate::fixed::lemma_div_component_square(d1, r);
    crate::fixed::lemma_div_component_square(d2, r);
    crate::fixed::lemma_div_component_square(d3, r);
    let qq = q1 * q1 + q2 * q2 + q3 * q3;
    assert((d1 * s) * (d1 * s) == (d1 * d1) * (s * s)) by (nonlinear_arith);
    assert((d2 * s) * (d2 * s) == (d2 * d2) * (s * s)) by (nonlinear_arith);
    assert((d3 * s) * (d3 * s) == (d3 * d3) * (s * s)) by (nonlinear_arith);
    assert(qq * (r * r) == (q1 * q1) * (r * r) + (q2 * q2) * (r * r) + (q3 * q3) * (r * r))
        by (nonlinear_arith)
        requires
            qq == q1 * q1 + q2 * q2 + q3 * q3,
    ;
    assert(dd * (s * s) == (d1 * d1) * (s * s) + (d2 * d2) * (s * s) + (d3 * d3) * (s * s))
        by (nonlinear_arith)
        requires
            dd == d1 * d1 + d2 * d2 + d3 * d3,
    ;
    assert(dd * (s * s) - 3 * ((4 * s + 1) * (r * r)) <= qq * (r * r) <= dd * (s * s) + 3 * ((4 * s
        + 1) * (r * r)));

    // relate the rescaled squares to the target s^2, then divide by r^2
    assert((s * s) * (r * r) - ((s * k + 4 * s) * (s * s) + 3 * ((4 * s + 1) * (r * r))) <= qq * (r
        * r)) by (nonlinear_arith)
        requires
            r * r - (s * k + 4 * s) <= dd,
            dd * (s * s) - 3 * ((4 * s + 1) * (r * r)) <= qq * (r * r),
            s == 65536,
    ;
    assert(qq * (r * r) <= (s * s) * (r * r) + ((s * k + 4 * s) * (s * s) + 3 * ((4 * s + 1) * (r
        * r)))) by (nonlinear_arith)
        requires
            dd <= r * r + (s * k + 4 * s),
            qq * (r * r) <= dd * (s * s) + 3 * ((4 * s + 1) * (r * r)),
            s == 65536,
    ;
    assert((s * k + 4 * s) * (s * s) <= (s * k + 4 * s) * (r * r)) by (nonlinear_arith)
        requires
            s <= r,
            s == 65536,
            k >= 0,
    ;
    assert(s * s - (s * k + 4 * s + 12 * s + 3) <= qq <= s * s + (s * k + 4 * s + 12 * s + 3))
        by (nonlinear_arith)
        requires
            (s * s) * (r * r) - ((s * k + 4 * s) * (r * r) + 3 * ((4 * s + 1) * (r * r))) <= qq * (
            r * r),
            qq * (r * r) <= (s * s) * (r * r) + ((s * k + 4 * s) * (r * r) + 3 * ((4 * s + 1) * (r
                * r))),
            r * r >= 1,
            s == 65536,
            k >= 0,
    ;

    // the quotient vector's squared length, exactly up to one quantum
    crate::fixed::lemma_square_term(q1, 2 * s);
    crate::fixed::lemma_square_term(q2, 2 * s);
    crate::fixed::lemma_square_term(q3, 2 * s);
    let w = spec_vdiv(v, radius);
    assert(w.x.raw == q1 && w.y.raw == q2 && w.z.raw == q3);
    let nn = spec_len_sq(w).raw as int;
    assert(nn == fx_mul_raw(q1, q1) + fx_mul_raw(q2, q2) + fx_mul_raw(q3, q3));
    assert(qq - 3 * (s - 1) <= nn * s <= qq) by (nonlinear_arith)
        requires
            nn == fx_mul_raw(q1, q1) + fx_mul_raw(q2, q2) + fx_mul_raw(q3, q3),
            fx_mul_raw(q1, q1) * s <= q1 * q1 <= fx_mul_raw(q1, q1) * s + (s - 1),
            fx_mul_raw(q2, q2) * s <= q2 * q2 <= fx_mul_raw(q2, q2) * s + (s - 1),
            fx_mul_raw(q3, q3) * s <= q3 * q3 <= fx_mul_raw(q3, q3) * s + (s - 1),
            qq == q1 * q1 + q2 * q2 + q3 * q3,
    ;
    assert(s - (k + 21) <= nn <= s + (k + 21)) by (nonlinear_arith)
        requires
            qq - 3 * (s - 1) <= nn * s <= qq,
            s * s - (s * k + 16 * s + 3) <= qq <= s * s + (s * k + 16 * s + 3),
            s == 65536,
            k >= 0,
    ;
}

/// Negation leaves the squared length unchanged.
pub proof fn lemma_len_sq_neg(v: Vec3)
    requires
        v_wf(v),
    ensures
        spec_len_sq(spec_vneg(v)) == spec_len_sq(v),
{
    assert((-(v.x.raw as int)) * (-(v.x.raw as int)) == (v.x.raw as int) * (v.x.raw as int))
        by (nonlinear_arith);
    assert((-(v.y.raw as int)) * (-(v.y.raw as int)) == (v.y.raw as int) * (v.y.raw as int))
        by (nonlinear_arith);
    assert((-(v.z.raw as int)) * (-(v.z.raw as int)) == (v.z.raw as int) * (v.z.raw as int))
        by (nonlinear_arith);
}

/// A random near-unit direction on the hemisphere around `normal`.
pub fn random_on_hemisphere(s: &mut Sampler, normal: Vec3) -> (r: Vec3)
    requires
        v_wf(normal),
    ensures
        v_wf(r),
        spec_dot(r, normal).raw >= 0,
        spec_near_unit(r),
{
    let on_unit_sphere = random_unit_vector(s);
    let d = on_unit_sphere.dot(normal);
    if d.raw > 0 {
        on_unit_sphere
    } else {
        let flipped = on_unit_sphere.neg();
        proof {
            lemma_dot_neg(on_unit_sphere, normal);
            lemma_len_sq_neg(on_unit_sphere);
        }
        flipped
    }
}

/// A point drawn by rejection from the unit disk in the `z = 0` plane;
/// the origin stands in if every attempt is rejected.
pub fn random_in_unit_disk(s: &mut Sampler) -> (r: Vec3)
    ensures
        v_wf(r),
        r.z.raw == 0,
        spec_len_sq(r).raw < FX_SCALE,
{
    let neg_one = Fx { raw: -FX_SCALE };
    let one = Fx { raw: FX_SCALE };
    let mut attempts: usize = 0;
    while attempts < 64
        invariant
            neg_one.raw == -FX_SCALE,
            one.raw == FX_SCALE,
        decreases 64 - attempts,
    {
        let x = random_double_in_range(s, neg_one, one);
        let y = random_double_in_range(s, neg_one, one);
        let p = Vec3 { x, y, z: Fx { raw: 0 } };
        let lsq = p.length_squared();
        if lsq.raw < FX_SCALE {
            return p;
        }
        attempts = attempts + 1;
    }
    let origin = Vec3::zero();
    proof {
        assert(fx_mul_raw(0, 0) == 0);
        assert(spec_len_sq(origin).raw == 0);
    }
    origin
}

/// Negating one side of a dot product negates the result.
pub proof fn lemma_dot_neg(a: Vec3, b: Vec3)
    requires
        v_wf(a),
        v_wf(b),
    ensures
        spec_dot(spec_vneg(a), b).raw == fx_neg_raw(spec_dot(a, b).raw as int),
{
    lemma_mul_neg_left(a.x.raw as int, b.x.raw as int);
    lemma_mul_neg_left(a.y.raw as int, b.y.raw as int);
    lemma_mul_neg_left(a.z.raw as int, b.z.raw as int);
}

/// Negating the right side of a dot product negates the result.
pub proof fn lemma_dot_neg_right(a: Vec3, b: Vec3)
    requires
        v_wf(a),
        v_wf(b),
    ensures
        spec_dot(a, spec_vneg(b)).raw == fx_neg_raw(spec_dot(a, b).raw as int),
{
    lemma_mul_neg_left(b.x.raw as int, a.x.raw as int);
    lemma_mul_neg_left(b.y.raw as int, a.y.raw as int);
    lemma_mul_neg_left(b.z.raw as int, a.z.raw as int);
    assert((a.x.raw as int) * clip(-(b.x.raw as int)) == clip(-(b.x.raw as int)) * (a.x.raw as int))
        by (nonlinear_arith);
    assert((a.y.raw as int) * clip(-(b.y.raw as int)) == clip(-(b.y.raw as int)) * (a.y.raw as int))
        by (nonlinear_arith);
    assert((a.z.raw as int) * clip(-(b.z.raw as int)) == clip(-(b.z.raw as int)) * (a.z.raw as int))
        by (nonlinear_arith);
    assert((a.x.raw as int) * (b.x.raw as int) == (b.x.raw as int) * (a.x.raw as int))
        by (nonlinear_arith);
    assert((a.y.raw as int) * (b.y.raw as int) == (b.y.raw as int) * (a.y.raw as int))
        by (nonlinear_arith);
    assert((a.z.raw as int) * (b.z.raw as int) == (b.z.raw as int) * (a.z.raw as int))
        by (nonlinear_arith);
}

/// A squared length is never negative.
pub proof fn lemma_len_sq_nonneg(v: Vec3)
    ensures
        spec_len_sq(v).raw >= 0,
{
    assert((v.x.raw as int) * (v.x.raw as int) >= 0) by (nonlinear_arith);
    assert((v.y.raw as int) * (v.y.raw as int) >= 0) by (nonlinear_arith);
    assert((v.z.raw as int) * (v.z.raw as int) >= 0) by (nonlinear_arith);
    vstd::arithmetic::div_mod::lemma_div_pos_is_pos((v.x.raw as int) * (v.x.raw as int), FX_SCALE as int);
    vstd::arithmetic::div_mod::lemma_div_pos_is_pos((v.y.raw as int) * (v.y.raw as int), FX_SCALE as int);
    vstd::arithmetic::div_mod::lemma_div_pos_is_pos((v.z.raw as int) * (v.z.raw as int), FX_SCALE as int);
}

/// Scaling by the zero scalar yields the zero vector.
pub proof fn lemma_vscale_by_zero(v: Vec3, t: Fx)
    requires
        v_wf(v),
        t.raw == 0,
    ensures
        spec_vscale(v, t) == (Vec3 { x: Fx { raw: 0 }, y: Fx { raw: 0 }, z: Fx { raw: 0 } }),
{
    assert((v.x.raw as int) * 0 == 0) by (nonlinear_arith);
    assert((v.y.raw as int) * 0 == 0) by (nonlinear_arith);
    assert((v.z.raw as int) * 0 == 0) by (nonlinear_arith);
}

/// Adding the zero vector changes nothing.
pub proof fn lemma_vadd_zero(v: Vec3)
    requires
        v_wf(v),
    ensures
        spec_vadd(v, Vec3 { x: Fx { raw: 0 }, y: Fx { raw: 0 }, z: Fx { raw: 0 } }) == v,
{
}

/// Fixed-point products flip sign with their left factor, inside the
/// well-formed range.
proof fn lemma_mul_neg_left(a: int, b: int)
    requires
        -0x4000_0000_0000_0000 <= a <= 0x4000_0000_0000_0000,
        -0x4000_0000_0000_0000 <= b <= 0x4000_0000_0000_0000,
    ensures
        fx_mul_raw(clip(-a), b) == fx_neg_raw(fx_mul_raw(a, b)),
{
    assert((-a) * b == -(a * b)) by (nonlinear_arith);
    assert(-0x4000_0000_0000_0000 * 0x4000_0000_0000_0000 <= a * b <= 0x4000_0000_0000_0000
        * 0x4000_0000_0000_0000) by (nonlinear_arith)
        requires
            -0x4000_0000_0000_0000 <= a <= 0x4000_0000_0000_0000,
            -0x4000_0000_0000_0000 <= b <= 0x4000_0000_0000_0000,
    ;
    assert(tdiv(-(a * b), FX_SCALE as int) == -tdiv(a * b, FX_SCALE as int));
}

} // verus!
