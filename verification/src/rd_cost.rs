//! The cost a mode-decision candidate is ranked by.

use vstd::arithmetic::mul::{lemma_mul_inequality, lemma_mul_nonnegative};
use vstd::prelude::*;

pub mod full_cost;
pub mod inter_cost;
pub mod intra_cost;
pub mod syntax;

verus! {

/// Rates are in units of `2^-9` bit.
pub const AV1_PROB_COST_SHIFT: u32 = 9;

/// A distortion weighs `2^7` times a rate under multiplier 512.
pub const RDDIV_BITS: u32 = 7;

/// Weight of a motion-vector rate.
pub const MV_COST_WEIGHT: i32 = 108;

/// Weight of a block-vector rate.
pub const MV_COST_WEIGHT_SUB: i32 = 120;

/// `round(rate * lambda / 512) + 128 * dist`.
pub open spec fn rd(lambda: int, rate: int, dist: int) -> int {
    (rate * lambda + 256) / 512 + dist * 128
}

/// A rate, and its cost with a distortion, fit in 64 bits.
pub open spec fn cost_fits(lambda: int, rate: int, dist: int) -> bool {
    &&& rate <= u64::MAX
    &&& rate * lambda + 256 <= u64::MAX
    &&& rd(lambda, rate, dist) <= u64::MAX
}

/// Cost of a rate and a distortion.
pub fn rdcost(lambda: u64, rate: u64, dist: u64) -> (r: u64)
    requires
        rate * lambda + 256 <= u64::MAX,
        rd(lambda as int, rate as int, dist as int) <= u64::MAX,
    ensures
        r == rd(lambda as int, rate as int, dist as int),
{
    proof {
        lemma_mul_nonnegative(rate as int, lambda as int);
    }
    (rate * lambda + 256) / 512 + dist * 128
}

/// Rate of `n` raw bits.
pub fn cost_literal(n: u32) -> (r: u32)
    requires
        n <= 0x7f_ffff,
    ensures
        r == 512 * n,
{
    512 * n
}

/// A cost is `rate * lambda / 512 + 128 * dist` to within half a unit: with
/// multiplier 512 it is the rate and 128 times the distortion.
pub proof fn costs_weigh_rate_and_distortion(lambda: int, rate: int, dist: int)
    ensures
        -256 <= 512 * rd(lambda, rate, dist) - (rate * lambda + 65536 * dist) <= 256,
        rd(512, rate, dist) == rate + 128 * dist,
{
}

/// A cheaper rate at the same distortion never costs more.
pub proof fn rd_is_monotone_in_rate(lambda: int, r1: int, r2: int, dist: int)
    requires
        0 <= lambda,
        r1 <= r2,
    ensures
        rd(lambda, r1, dist) <= rd(lambda, r2, dist),
{
    lemma_mul_inequality(r1, r2, lambda);
}

/// A lower distortion at the same rate always costs less.
pub proof fn rd_is_strict_in_distortion(lambda: int, rate: int, d1: int, d2: int)
    requires
        d1 < d2,
    ensures
        rd(lambda, rate, d1) < rd(lambda, rate, d2),
{
}

} // verus!
