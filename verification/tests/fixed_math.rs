use ray_tracer::color::{channel_byte, color_bytes, Color};
use ray_tracer::fixed::{Fx, FX_MAX_RAW, FX_MIN_RAW, FX_SCALE};
use ray_tracer::interval::Interval;
use ray_tracer::sampler::{random_double, random_double_in_range, Sampler};

#[test]
fn from_int_and_add_sub() {
    let a = Fx::from_int(3);
    let b = Fx::from_int(2);
    assert_eq!(a.raw, 3 * FX_SCALE);
    assert_eq!(a.add(b).raw, 5 * FX_SCALE);
    assert_eq!(a.sub(b).raw, FX_SCALE);
    assert_eq!(b.sub(a).raw, -FX_SCALE);
    assert_eq!(a.neg().raw, -3 * FX_SCALE);
}

#[test]
fn mul_is_exact_on_halves() {
    // 1.5 * 2.5 == 3.75
    let a = Fx::from_raw(3 * FX_SCALE / 2);
    let b = Fx::from_raw(5 * FX_SCALE / 2);
    assert_eq!(a.mul(b).raw, 15 * FX_SCALE / 4);
    // multiplication by zero vanishes
    assert_eq!(a.mul(Fx::zero()).raw, 0);
    // multiplication by one is the identity
    assert_eq!(a.mul(Fx::one()).raw, a.raw);
}

#[test]
fn mul_truncates_toward_zero() {
    // (1/65536) * (1/2) rounds to zero from both signs
    let eps = Fx::from_raw(1);
    let half = Fx::from_raw(FX_SCALE / 2);
    assert_eq!(eps.mul(half).raw, 0);
    assert_eq!(eps.neg().mul(half).raw, 0);
}

#[test]
fn div_quotients() {
    let one = Fx::one();
    let three = Fx::from_int(3);
    // 1/3 truncated at 16 fractional bits
    assert_eq!(one.div(three).raw, 21845);
    assert_eq!(one.neg().div(three).raw, -21845);
    assert_eq!(Fx::from_int(6).div(Fx::from_int(2)).raw, 3 * FX_SCALE);
}

#[test]
fn div_by_zero_saturates_by_sign() {
    assert_eq!(Fx::one().div(Fx::zero()).raw, FX_MAX_RAW);
    assert_eq!(Fx::one().neg().div(Fx::zero()).raw, FX_MIN_RAW);
    assert_eq!(Fx::zero().div(Fx::zero()).raw, 0);
}

#[test]
fn add_saturates_at_bounds() {
    let top = Fx::from_raw(FX_MAX_RAW);
    assert_eq!(top.add(top).raw, FX_MAX_RAW);
    let bottom = Fx::from_raw(FX_MIN_RAW);
    assert_eq!(bottom.add(bottom).raw, FX_MIN_RAW);
    assert_eq!(Fx::from_raw(FX_MAX_RAW + 5).raw, FX_MAX_RAW);
}

#[test]
fn sqrt_exact_squares() {
    assert_eq!(Fx::from_int(4).sqrt().raw, 2 * FX_SCALE);
    assert_eq!(Fx::from_int(9).sqrt().raw, 3 * FX_SCALE);
    assert_eq!(Fx::one().sqrt().raw, FX_SCALE);
    assert_eq!(Fx::zero().sqrt().raw, 0);
    assert_eq!(Fx::from_int(2).neg().sqrt().raw, 0);
    // sqrt(2) == 1.41421... -> floor(65536 * sqrt(2)) == 92681
    assert_eq!(Fx::from_int(2).sqrt().raw, 92681);
}

#[test]
fn abs_min_max() {
    let a = Fx::from_int(-7);
    assert_eq!(a.abs().raw, 7 * FX_SCALE);
    assert_eq!(Fx::from_int(7).abs().raw, 7 * FX_SCALE);
    assert_eq!(a.min(Fx::zero()).raw, a.raw);
    assert_eq!(a.max(Fx::zero()).raw, 0);
}

#[test]
fn interval_contains_surrounds_clamp() {
    let i = Interval::with_bounds(Fx::from_int(1), Fx::from_int(3));
    assert!(i.contains(Fx::from_int(1)));
    assert!(i.contains(Fx::from_int(3)));
    assert!(!i.surrounds(Fx::from_int(1)));
    assert!(!i.surrounds(Fx::from_int(3)));
    assert!(i.surrounds(Fx::from_int(2)));
    assert_eq!(i.clamp(Fx::from_int(0)).raw, FX_SCALE);
    assert_eq!(i.clamp(Fx::from_int(9)).raw, 3 * FX_SCALE);
    assert_eq!(i.clamp(Fx::from_int(2)).raw, 2 * FX_SCALE);
    assert_eq!(i.size().raw, 2 * FX_SCALE);
    // the empty range contains nothing
    let empty = Interval::new();
    assert!(!empty.contains(Fx::zero()));
    // the universal range contains everything representable
    let all = Interval::universe();
    assert!(all.contains(Fx::from_raw(FX_MAX_RAW)));
}

#[test]
fn gamma_quantization_bytes() {
    // linear 0.25 -> gamma 0.5 -> floor(0.5 * 255.999) == 127
    assert_eq!(channel_byte(Fx::from_raw(FX_SCALE / 4)), 127);
    // linear 1.0 clamps just below 1 -> 255
    assert_eq!(channel_byte(Fx::one()), 255);
    // channels above one still clamp to 255
    assert_eq!(channel_byte(Fx::from_int(9)), 255);
    // black stays black
    assert_eq!(channel_byte(Fx::zero()), 0);
    assert_eq!(channel_byte(Fx::from_int(-1)), 0);
    let c = Color::new(Fx::zero(), Fx::from_raw(FX_SCALE / 4), Fx::one());
    assert_eq!(color_bytes(c), (0, 127, 255));
}

#[test]
fn sampler_draws_stay_in_unit_range() {
    let mut s = Sampler::from_seed(7);
    for _ in 0..1000 {
        let u = random_double(&mut s);
        assert!(0 <= u.raw && u.raw < FX_SCALE);
    }
    let lo = Fx::from_int(-2);
    let hi = Fx::from_int(5);
    for _ in 0..1000 {
        let u = random_double_in_range(&mut s, lo, hi);
        assert!(lo.raw <= u.raw && u.raw <= hi.raw);
    }
}

#[test]
fn seeded_sampler_is_reproducible() {
    let mut a = Sampler::from_seed(42);
    let mut b = Sampler::from_seed(42);
    for _ in 0..100 {
        assert_eq!(random_double(&mut a).raw, random_double(&mut b).raw);
    }
}
