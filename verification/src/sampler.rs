//! The renderer's randomness source: a seedable generator owned by each
//! rendering task, drawn from in fixed-point units.
use rand::Rng;
use vstd::prelude::*;

use crate::fixed::{fx_wf, tdiv, Fx, FX_SCALE};

verus! {

#[verifier::external_type_specification]
#[verifier::external_body]
pub struct ExStdRng(rand::rngs::StdRng);

/// A per-task random-number source. Each task owns its own, so no
/// synchronization is ever needed around a draw.
pub struct Sampler {
    rng: rand::rngs::StdRng,
}

impl Sampler {
    /// Relies on `rand::SeedableRng::seed_from_u64`: builds a generator
    /// from a word-sized seed.
    #[verifier::external_body]
    pub fn from_seed(seed: u64) -> (r: Sampler) {
        Sampler { rng: <rand::rngs::StdRng as rand::SeedableRng>::seed_from_u64(seed) }
    }

    /// Relies on `rand::Rng::gen_range` over the nonempty range
    /// `0..FX_SCALE`: a draw inside `[0, FX_SCALE)`, that is a
    /// fixed-point value in `[0, 1)`.
    #[verifier::external_body]
    pub fn next_unit(&mut self) -> (r: Fx)
        ensures
            0 <= r.raw < FX_SCALE,
    {
        Fx { raw: self.rng.gen_range(0i128..65536i128) }
    }
}

/// A uniform draw in `[0, 1)`.
pub fn random_double(s: &mut Sampler) -> (r: Fx)
    ensures
        0 <= r.raw < FX_SCALE,
        fx_wf(r),
{
    s.next_unit()
}

/// A uniform draw in `[min, max)`: the result never reaches `max`
/// unless the range is a single point.
pub fn random_double_in_range(s: &mut Sampler, min: Fx, max: Fx) -> (r: Fx)
    requires
        fx_wf(min),
        fx_wf(max),
        min.raw <= max.raw,
    ensures
        min.raw <= r.raw <= max.raw,
        min.raw < max.raw ==> r.raw < max.raw,
        fx_wf(r),
{
    let u = s.next_unit();
    let span = max.sub(min);
    let offset = u.mul(span);
    proof {
        let d = span.raw as int;
        let p = (u.raw as int) * d;
        assert(0 <= p <= (FX_SCALE as int) * d) by (nonlinear_arith)
            requires
                0 <= u.raw < FX_SCALE,
                d >= 0,
                p == (u.raw as int) * d,
        ;
        assert(tdiv(p, FX_SCALE as int) == p / FX_SCALE as int);
        vstd::arithmetic::div_mod::lemma_div_is_ordered(0, p, FX_SCALE as int);
        vstd::arithmetic::div_mod::lemma_div_is_ordered(p, (FX_SCALE as int) * d, FX_SCALE as int);
        vstd::arithmetic::div_mod::lemma_div_by_multiple(d, FX_SCALE as int);
        assert(0 <= offset.raw <= d);
        if d >= 1 {
            assert(p < (FX_SCALE as int) * d) by (nonlinear_arith)
                requires
                    0 <= u.raw < FX_SCALE,
                    d >= 1,
                    p == (u.raw as int) * d,
            ;
            vstd::arithmetic::div_mod::lemma_multiply_divide_lt(p, FX_SCALE as int, d);
            assert(offset.raw < d);
        }
    }
    min.add(offset)
}

} // verus!
