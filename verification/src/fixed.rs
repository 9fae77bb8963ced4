//! Fixed-point scalar arithmetic.
//!
//! Every real-valued quantity of the renderer is a binary fixed-point
//! number: an `i128` holding the value times `FX_SCALE`. All operations
//! saturate at `FX_MAX_RAW` / `FX_MIN_RAW`, so they are total, and each
//! executable operation returns exactly the value of its spec-level
//! counterpart.
use vstd::prelude::*;

verus! {

/// One whole unit, as a raw fixed-point payload (16 fractional bits).
pub const FX_SCALE: i128 = 65536;

/// Largest raw payload a well-formed scalar may hold.
pub const FX_MAX_RAW: i128 = 0x4000_0000_0000_0000;

/// Smallest raw payload a well-formed scalar may hold.
pub const FX_MIN_RAW: i128 = -0x4000_0000_0000_0000;

/// A saturating binary fixed-point scalar: the represented value is
/// `raw / FX_SCALE`.
#[derive(Clone, Copy, Debug, PartialEq, Eq, Structural)]
pub struct Fx {
    pub raw: i128,
}

/// Well-formedness: the raw payload stays inside the saturation bounds,
/// which keeps every product of two payloads inside `i128`.
pub open spec fn fx_wf(a: Fx) -> bool {
    FX_MIN_RAW <= a.raw <= FX_MAX_RAW
}

/// Saturation of a mathematical result to the representable raw range.
pub open spec fn clip(x: int) -> int {
    if x > FX_MAX_RAW {
        FX_MAX_RAW as int
    } else if x < FX_MIN_RAW {
        FX_MIN_RAW as int
    } else {
        x
    }
}

/// Quotient rounded toward zero, for a positive divisor.
pub open spec fn tdiv(a: int, b: int) -> int {
    if a >= 0 {
        a / b
    } else {
        -((-a) / b)
    }
}

/// Quotient rounded toward zero, for any nonzero divisor.
pub open spec fn tdiv_signed(a: int, b: int) -> int {
    if b >= 0 {
        tdiv(a, b)
    } else {
        -tdiv(a, -b)
    }
}

/// Raw result of fixed-point addition.
pub open spec fn fx_add_raw(a: int, b: int) -> int {
    clip(a + b)
}

/// Raw result of fixed-point subtraction.
pub open spec fn fx_sub_raw(a: int, b: int) -> int {
    clip(a - b)
}

/// Raw result of fixed-point negation.
pub open spec fn fx_neg_raw(a: int) -> int {
    clip(-a)
}

/// Raw result of fixed-point multiplication: the double-width product,
/// rescaled with rounding toward zero, then saturated.
pub open spec fn fx_mul_raw(a: int, b: int) -> int {
    clip(tdiv(a * b, FX_SCALE as int))
}

/// Raw result of fixed-point division. Division by zero saturates to the
/// bound with the dividend's sign (zero for a zero dividend).
pub open spec fn fx_div_raw(a: int, b: int) -> int {
    if b == 0 {
        if a > 0 {
            FX_MAX_RAW as int
        } else if a < 0 {
            FX_MIN_RAW as int
        } else {
            0
        }
    } else {
        clip(tdiv_signed(a * (FX_SCALE as int), b))
    }
}

/// `r` is the integer square root of `n`.
pub open spec fn is_isqrt(n: int, r: int) -> bool {
    0 <= r && r * r <= n && n < (r + 1) * (r + 1)
}

/// The integer square root of a nonnegative argument (zero for a
/// negative one).
pub open spec fn isqrt(n: int) -> int {
    if n >= 0 {
        choose|r: int| is_isqrt(n, r)
    } else {
        0
    }
}

/// Raw result of the fixed-point square root: zero on any nonpositive
/// argument, else the integer square root of the rescaled payload.
pub open spec fn fx_sqrt_raw(a: int) -> int {
    if a <= 0 {
        0
    } else {
        isqrt(a * (FX_SCALE as int))
    }
}

/// Spec-level constructors mirroring the executable ones.
pub open spec fn spec_fx(raw: int) -> Fx {
    Fx { raw: clip(raw) as i128 }
}

/// The integer square root is unique.
proof fn lemma_isqrt_unique(n: int, r1: int, r2: int)
    requires
        is_isqrt(n, r1),
        is_isqrt(n, r2),
    ensures
        r1 == r2,
{
    if r1 < r2 {
        assert((r1 + 1) * (r1 + 1) <= r2 * r2) by (nonlinear_arith)
            requires
                0 <= r1,
                0 <= r2,
                r1 < r2,
        ;
    }
    if r2 < r1 {
        assert((r2 + 1) * (r2 + 1) <= r1 * r1) by (nonlinear_arith)
            requires
                0 <= r1,
                0 <= r2,
                r2 < r1,
        ;
    }
}

/// A witness pins down `isqrt`.
pub proof fn lemma_isqrt_is(n: int, r: int)
    requires
        is_isqrt(n, r),
    ensures
        isqrt(n) == r,
{
    assert(n >= 0) by (nonlinear_arith)
        requires
            is_isqrt(n, r),
    ;
    let w = choose|q: int| is_isqrt(n, q);
    assert(is_isqrt(n, w));
    lemma_isqrt_unique(n, w, r);
}

/// Every nonnegative integer has an integer square root.
pub proof fn lemma_isqrt_exists(n: int)
    requires
        n >= 0,
    ensures
        is_isqrt(n, isqrt(n)),
    decreases n,
{
    if n == 0 {
        assert(is_isqrt(0, 0));
    } else {
        lemma_isqrt_exists(n - 1);
        let r = isqrt(n - 1);
        if (r + 1) * (r + 1) <= n {
            assert(is_isqrt(n, r + 1)) by (nonlinear_arith)
                requires
                    is_isqrt(n - 1, r),
                    (r + 1) * (r + 1) <= n,
            ;
        } else {
            assert(is_isqrt(n, r));
        }
    }
    assert(exists|q: int| is_isqrt(n, q));
}

/// The fixed-point square root is never negative.
pub proof fn lemma_sqrt_raw_nonneg(a: int)
    ensures
        fx_sqrt_raw(a) >= 0,
{
    if a > 0 {
        assert(a * (FX_SCALE as int) >= 0) by (nonlinear_arith)
            requires
                a > 0,
        ;
        lemma_isqrt_exists(a * (FX_SCALE as int));
    }
}

/// Truncated division by a positive divisor is monotone in the
/// dividend.
pub proof fn lemma_tdiv_mono(x1: int, x2: int, b: int)
    requires
        x1 <= x2,
        b > 0,
    ensures
        tdiv(x1, b) <= tdiv(x2, b),
{
    if x1 >= 0 {
        vstd::arithmetic::div_mod::lemma_div_is_ordered(x1, x2, b);
    } else if x2 < 0 {
        vstd::arithmetic::div_mod::lemma_div_is_ordered(-x2, -x1, b);
    } else {
        vstd::arithmetic::div_mod::lemma_div_pos_is_pos(-x1, b);
        vstd::arithmetic::div_mod::lemma_div_pos_is_pos(x2, b);
    }
}

/// Truncated division leaves a remainder smaller than the divisor, on
/// the dividend's side of zero.
pub proof fn lemma_tdiv_remainder(a: int, b: int)
    requires
        b > 0,
    ensures
        -(b - 1) <= a - tdiv(a, b) * b <= b - 1,
        a >= 0 ==> 0 <= a - tdiv(a, b) * b,
        a <= 0 ==> a - tdiv(a, b) * b <= 0,
{
    if a >= 0 {
        vstd::arithmetic::div_mod::lemma_fundamental_div_mod(a, b);
        vstd::arithmetic::div_mod::lemma_mod_division_less_than_divisor(a, b);
        assert(b * (a / b) == (a / b) * b) by (nonlinear_arith);
    } else {
        vstd::arithmetic::div_mod::lemma_fundamental_div_mod(-a, b);
        vstd::arithmetic::div_mod::lemma_mod_division_less_than_divisor(-a, b);
        assert(b * ((-a) / b) == ((-a) / b) * b) by (nonlinear_arith);
        assert((-((-a) / b)) * b == -(((-a) / b) * b)) by (nonlinear_arith);
    }
}

/// For a bounded argument, the fixed-point square neither saturates nor
/// strays more than one quantum from the exact rescaled square.
pub proof fn lemma_square_term(x: int, cap: int)
    requires
        0 <= cap <= 0x40_0000_0000,
        -cap <= x <= cap,
    ensures
        fx_mul_raw(x, x) == tdiv(x * x, FX_SCALE as int),
        0 <= fx_mul_raw(x, x) <= 0x1000_0000_0000_0000,
        fx_mul_raw(x, x) * (FX_SCALE as int) <= x * x,
        x * x <= fx_mul_raw(x, x) * (FX_SCALE as int) + (FX_SCALE as int - 1),
{
    assert(0 <= x * x <= cap * cap) by (nonlinear_arith)
        requires
            -cap <= x <= cap,
            0 <= cap,
    ;
    assert(cap * cap <= 0x1000_0000_0000_0000int * 65536) by (nonlinear_arith)
        requires
            0 <= cap <= 0x40_0000_0000,
    ;
    let t = tdiv(x * x, FX_SCALE as int);
    vstd::arithmetic::div_mod::lemma_div_pos_is_pos(x * x, FX_SCALE as int);
    vstd::arithmetic::div_mod::lemma_div_is_ordered(
        x * x,
        0x1000_0000_0000_0000int * 65536,
        FX_SCALE as int,
    );
    assert((0x1000_0000_0000_0000int * 65536) / 65536 == 0x1000_0000_0000_0000int);
    vstd::arithmetic::div_mod::lemma_fundamental_div_mod(x * x, FX_SCALE as int);
    vstd::arithmetic::div_mod::lemma_mod_division_less_than_divisor(x * x, FX_SCALE as int);
    assert(65536 * ((x * x) / 65536) == ((x * x) / 65536) * 65536) by (nonlinear_arith);
}

/// Dividing a bounded coordinate by the radius neither saturates nor
/// moves its rescaled square more than a bounded amount: the square of
/// `tdiv(d * FX_SCALE, r)` times `r^2` stays within `(4*FX_SCALE + 1) * r^2`
/// of `(d * FX_SCALE)^2`.
pub proof fn lemma_div_component_square(d: int, r: int)
    requires
        FX_SCALE as int <= r <= 0x20_0000_0000,
        -2 * r <= d <= 2 * r,
    ensures
        fx_div_raw(d, r) == tdiv(d * (FX_SCALE as int), r),
        -2 * (FX_SCALE as int) <= tdiv(d * (FX_SCALE as int), r) <= 2 * (FX_SCALE as int),
        (tdiv(d * (FX_SCALE as int), r) * tdiv(d * (FX_SCALE as int), r)) * (r * r) >= (d * (
        FX_SCALE as int)) * (d * (FX_SCALE as int)) - (4 * (FX_SCALE as int) + 1) * (r * r),
        (tdiv(d * (FX_SCALE as int), r) * tdiv(d * (FX_SCALE as int), r)) * (r * r) <= (d * (
        FX_SCALE as int)) * (d * (FX_SCALE as int)) + (4 * (FX_SCALE as int) + 1) * (r * r),
{
    let s = FX_SCALE as int;
    let q = tdiv(d * s, r);
    assert(-(2 * r * s) <= d * s <= 2 * r * s) by (nonlinear_arith)
        requires
            -2 * r <= d <= 2 * r,
            s == 65536,
    ;
    assert(2 * r * s == r * (2 * s)) by (nonlinear_arith);
    vstd::arithmetic::div_mod::lemma_div_multiples_vanish(2 * s, r);
    assert(tdiv(r * (2 * s), r) == 2 * s);
    assert(tdiv(-(r * (2 * s)), r) == -(2 * s));
    lemma_tdiv_mono(d * s, r * (2 * s), r);
    lemma_tdiv_mono(-(r * (2 * s)), d * s, r);
    assert(-2 * s <= q <= 2 * s);
    lemma_tdiv_remainder(d * s, r);
    let e = d * s - q * r;
    assert((q * q) * (r * r) == (d * s) * (d * s) - 2 * (d * s) * e + e * e) by (nonlinear_arith)
        requires
            e == d * s - q * r,
    ;
    assert(-(2 * (2 * r) * s * (r - 1)) <= 2 * (d * s) * e <= 2 * (2 * r) * s * (r - 1))
        by (nonlinear_arith)
        requires
            -2 * r <= d <= 2 * r,
            -(r - 1) <= e <= r - 1,
            r >= 1,
            s == 65536,
    ;
    assert(0 <= e * e <= (r - 1) * (r - 1)) by (nonlinear_arith)
        requires
            -(r - 1) <= e <= r - 1,
    ;
    assert(2 * (2 * r) * s * (r - 1) + (r - 1) * (r - 1) <= (4 * s + 1) * (r * r))
        by (nonlinear_arith)
        requires
            r >= 1,
            s == 65536,
    ;
}

/// Fixed-point division by a nonnegative divisor is monotone in the
/// dividend.
pub proof fn lemma_fx_div_mono(x1: int, x2: int, b: int)
    requires
        x1 <= x2,
        b >= 0,
    ensures
        fx_div_raw(x1, b) <= fx_div_raw(x2, b),
{
    if b == 0 {
    } else {
        assert(x1 * (FX_SCALE as int) <= x2 * (FX_SCALE as int)) by (nonlinear_arith)
            requires
                x1 <= x2,
        ;
        lemma_tdiv_mono(x1 * (FX_SCALE as int), x2 * (FX_SCALE as int), b);
    }
}

impl Fx {
    /// Builds a scalar from a raw fixed-point payload, saturating.
    pub fn from_raw(raw: i128) -> (r: Fx)
        ensures
            r == spec_fx(raw as int),
            fx_wf(r),
    {
        if raw > FX_MAX_RAW {
            Fx { raw: FX_MAX_RAW }
        } else if raw < FX_MIN_RAW {
            Fx { raw: FX_MIN_RAW }
        } else {
            Fx { raw }
        }
    }

    /// Builds the scalar representing a whole number, saturating.
    pub fn from_int(v: i64) -> (r: Fx)
        ensures
            r == spec_fx((v as int) * (FX_SCALE as int)),
            fx_wf(r),
    {
        Fx::from_raw((v as i128) * FX_SCALE)
    }

    /// The zero scalar.
    pub fn zero() -> (r: Fx)
        ensures
            r.raw == 0,
            fx_wf(r),
    {
        Fx { raw: 0 }
    }

    /// The unit scalar.
    pub fn one() -> (r: Fx)
        ensures
            r.raw == FX_SCALE,
            fx_wf(r),
    {
        Fx { raw: FX_SCALE }
    }

    /// Saturating addition.
    pub fn add(self, other: Fx) -> (r: Fx)
        requires
            fx_wf(self),
            fx_wf(other),
        ensures
            r.raw == fx_add_raw(self.raw as int, other.raw as int),
            fx_wf(r),
    {
        Fx::from_raw(self.raw + other.raw)
    }

    /// Saturating subtraction.
    pub fn sub(self, other: Fx) -> (r: Fx)
        requires
            fx_wf(self),
            fx_wf(other),
        ensures
            r.raw == fx_sub_raw(self.raw as int, other.raw as int),
            fx_wf(r),
    {
        Fx::from_raw(self.raw - other.raw)
    }

    /// Negation.
    pub fn neg(self) -> (r: Fx)
        requires
            fx_wf(self),
        ensures
            r.raw == fx_neg_raw(self.raw as int),
            fx_wf(r),
    {
        Fx::from_raw(-self.raw)
    }

    /// Saturating multiplication with rescaling toward zero.
    pub fn mul(self, other: Fx) -> (r: Fx)
        requires
            fx_wf(self),
            fx_wf(other),
        ensures
            r.raw == fx_mul_raw(self.raw as int, other.raw as int),
            fx_wf(r),
    {
        proof {
            assert((FX_MIN_RAW as int) * (FX_MAX_RAW as int) <= (self.raw as int) * (other.raw as int)
                <= (FX_MAX_RAW as int) * (FX_MAX_RAW as int)) by (nonlinear_arith)
                requires
                    FX_MIN_RAW <= self.raw <= FX_MAX_RAW,
                    FX_MIN_RAW <= other.raw <= FX_MAX_RAW,
            ;
        }
        let p: i128 = self.raw * other.raw;
        let q = div_trunc(p, FX_SCALE);
        Fx::from_raw(q)
    }

    /// Saturating division; a zero divisor saturates by the dividend's
    /// sign.
    pub fn div(self, other: Fx) -> (r: Fx)
        requires
            fx_wf(self),
            fx_wf(other),
        ensures
            r.raw == fx_div_raw(self.raw as int, other.raw as int),
            fx_wf(r),
    {
        if other.raw == 0 {
            if self.raw > 0 {
                Fx { raw: FX_MAX_RAW }
            } else if self.raw < 0 {
                Fx { raw: FX_MIN_RAW }
            } else {
                Fx { raw: 0 }
            }
        } else {
            let scaled: i128 = self.raw * FX_SCALE;
            if other.raw > 0 {
                Fx::from_raw(div_trunc(scaled, other.raw))
            } else {
                let q = div_trunc(scaled, -other.raw);
                proof {
                    assert(fx_div_raw(self.raw as int, other.raw as int) == clip(
                        -tdiv(self.raw as int * (FX_SCALE as int), -(other.raw as int)),
                    ));
                }
                Fx::from_raw(-q)
            }
        }
    }

    /// Fixed-point square root: zero on any nonpositive argument.
    pub fn sqrt(self) -> (r: Fx)
        requires
            fx_wf(self),
        ensures
            r.raw == fx_sqrt_raw(self.raw as int),
            r.raw >= 0,
            fx_wf(r),
    {
        if self.raw <= 0 {
            Fx { raw: 0 }
        } else {
            proof {
                assert((self.raw as int) * (FX_SCALE as int) <= 0x4000_0000_0000_0000_0000i128
                    as int) by (nonlinear_arith)
                    requires
                        0 < self.raw <= FX_MAX_RAW,
                ;
            }
            let n: u128 = (self.raw as u128) * (FX_SCALE as u128);
            let root = isqrt_exec(n);
            proof {
                assert(isqrt((self.raw as int) * (FX_SCALE as int)) == root as int) by {
                    lemma_isqrt_is(n as int, root as int);
                }
                assert(root <= 0x80_0000_0000u128) by (nonlinear_arith)
                    requires
                        is_isqrt(n as int, root as int),
                        (n as int) <= 0x4000_0000_0000_0000_0000i128 as int,
                ;
            }
            Fx { raw: root as i128 }
        }
    }

    /// Absolute value.
    pub fn abs(self) -> (r: Fx)
        requires
            fx_wf(self),
        ensures
            r.raw == if self.raw < 0 {
                fx_neg_raw(self.raw as int)
            } else {
                self.raw as int
            },
            fx_wf(r),
    {
        if self.raw < 0 {
            self.neg()
        } else {
            self
        }
    }

    /// The smaller of two scalars.
    pub fn min(self, other: Fx) -> (r: Fx)
        ensures
            r == if self.raw <= other.raw {
                self
            } else {
                other
            },
    {
        if self.raw <= other.raw {
            self
        } else {
            other
        }
    }

    /// The larger of two scalars.
    pub fn max(self, other: Fx) -> (r: Fx)
        ensures
            r == if self.raw >= other.raw {
                self
            } else {
                other
            },
    {
        if self.raw >= other.raw {
            self
        } else {
            other
        }
    }
}

/// Truncated division of a (possibly negative) dividend by a positive
/// divisor.
fn div_trunc(a: i128, b: i128) -> (r: i128)
    requires
        b > 0,
        a > i128::MIN,
    ensures
        r == tdiv(a as int, b as int),
{
    if a >= 0 {
        let q: u128 = (a as u128) / (b as u128);
        proof {
            vstd::arithmetic::div_mod::lemma_div_nonincreasing(a as int, b as int);
            vstd::arithmetic::div_mod::lemma_div_pos_is_pos(a as int, b as int);
        }
        q as i128
    } else {
        let q: u128 = ((-a) as u128) / (b as u128);
        proof {
            vstd::arithmetic::div_mod::lemma_div_nonincreasing(-(a as int), b as int);
            vstd::arithmetic::div_mod::lemma_div_pos_is_pos(-(a as int), b as int);
        }
        -(q as i128)
    }
}

/// Integer square root by bisection.
fn isqrt_exec(n: u128) -> (r: u128)
    ensures
        is_isqrt(n as int, r as int),
{
    let mut lo: u128 = 0;
    let mut hi: u128 = 0x1_0000_0000_0000_0000u128;
    proof {
        assert((hi as int) * (hi as int) > n as int) by (nonlinear_arith)
            requires
                hi == 0x1_0000_0000_0000_0000u128,
                n <= 0xffff_ffff_ffff_ffff_ffff_ffff_ffff_ffffu128,
        ;
    }
    while lo + 1 < hi
        invariant
            lo < hi,
            hi <= 0x1_0000_0000_0000_0000u128,
            (lo as int) * (lo as int) <= n as int,
            (n as int) < (hi as int) * (hi as int),
        decreases hi - lo,
    {
        let mid: u128 = lo + (hi - lo) / 2;
        proof {
            assert(lo < mid < hi);
            assert((mid as int) * (mid as int) <= 0xffff_ffff_ffff_fffe_0000_0000_0000_0001u128
                as int) by (nonlinear_arith)
                requires
                    0 <= mid <= 0xffff_ffff_ffff_ffffu128,
            ;
        }
        if mid * mid <= n {
            lo = mid;
        } else {
            hi = mid;
        }
    }
    lo
}

} // verus!
