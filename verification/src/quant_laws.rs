//! What quantizing means: levels are quotients by the step size, and a
//! reconstruction stays within a step of its coefficient.

use vstd::arithmetic::div_mod::{
    lemma_div_denominator, lemma_fundamental_div_mod, lemma_fundamental_div_mod_converse, lemma_mod_bound,
};
use vstd::arithmetic::mul::lemma_mul_nonnegative;
use vstd::arithmetic::power2::{lemma2_to64, lemma_pow2_adds, lemma_pow2_pos, lemma_pow2_unfold, pow2};
use vstd::prelude::*;

use crate::arith::abs_int;
use crate::quant_tables::{dc_step, lemma_step_bounds};
use crate::quant::{
    ilog2, inverse_quant, inverse_shift, is_quant_table, lemma_ilog2, level_of, quantized_block, sharp_round_factor,
    sharp_zbin_factor, Kernel, QuantTable,
};

verus! {

/// The reciprocal of a step turns a product into the exact quotient, for
/// everything that fits 15 bits.
proof fn lemma_exact_quotient(x: int, d: int)
    requires
        0 <= x < 0x8000,
        1 <= d <= 0x8000,
    ensures
        ((x * inverse_quant(d)) / 0x1_0000 + x) * inverse_shift(d) / 0x1_0000 == x / d,
{
    let l = ilog2(d);
    lemma_ilog2(d);
    lemma2_to64();
    if l > 15 {
        vstd::arithmetic::power2::lemma_pow2_strictly_increases(15, l);
    }
    lemma_pow2_adds(16, l);
    lemma_pow2_adds((16 - l) as nat, l);
    lemma_pow2_unfold(l + 1);
    lemma_pow2_pos(l);
    lemma_pow2_pos((16 - l) as nat);
    let p = pow2(l) as int;
    let s = pow2((16 - l) as nat) as int;
    let big = 0x1_0000 * p;
    assert(big == pow2(16 + l));
    assert(s * p == 0x1_0000);
    let quot = big / d;
    let rem = big % d;
    lemma_fundamental_div_mod(big, d);
    lemma_mod_bound(big, d);
    let m = 1 + quot;
    assert(inverse_quant(d) == m - 0x1_0000);
    // The sum is a product with the whole reciprocal.
    let y = (x * m) / 0x1_0000;
    assert((x * (m - 0x1_0000)) / 0x1_0000 + x == y) by {
        assert(x * (m - 0x1_0000) == x * m - x * 0x1_0000) by (nonlinear_arith);
        lemma_fundamental_div_mod(x * m, 0x1_0000);
        lemma_mod_bound(x * m, 0x1_0000);
        lemma_fundamental_div_mod_converse(x * m - x * 0x1_0000, 0x1_0000, y - x, (x * m) % 0x1_0000);
    }
    // Scaling up and dividing by 2^16 divides by 2^l.
    assert(y * s / 0x1_0000 == y / p) by {
        assert(s * p == p * s) by (nonlinear_arith);
        assert(y * s == s * y) by (nonlinear_arith);
        lemma_mul_nonnegative(x, m);
        vstd::arithmetic::div_mod::lemma_div_pos_is_pos(x * m, 0x1_0000);
        vstd::arithmetic::div_mod::lemma_div_multiples_vanish_quotient(s, y, p);
    }
    // Two floors in a row are one.
    assert(y / p == (x * m) / big) by {
        lemma_mul_nonnegative(x, m);
        lemma_div_denominator(x * m, 0x1_0000, p);
    }
    // The slack of the reciprocal is too small to reach the next quotient.
    let q = x / d;
    let r = x % d;
    lemma_fundamental_div_mod(x, d);
    lemma_mod_bound(x, d);
    vstd::arithmetic::div_mod::lemma_div_pos_is_pos(x, d);
    let e = d - rem;
    assert(m * d == big + e) by (nonlinear_arith)
        requires
            m == 1 + quot,
            big == d * quot + rem,
            e == d - rem,
    ;
    let left = x * m - q * big;
    assert(d * left == r * big + x * e) by (nonlinear_arith)
        requires
            left == x * m - q * big,
            m * d == big + e,
            x == d * q + r,
    ;
    assert(x * e < big) by (nonlinear_arith)
        requires
            0 <= x < 0x8000,
            0 < e <= d,
            d < 2 * p,
            big == 0x1_0000 * p,
    ;
    assert(0 <= left < big) by (nonlinear_arith)
        requires
            d * left == r * big + x * e,
            0 <= x * e < big,
            0 <= r <= d - 1,
            d >= 1,
            big > 0,
    ;
    lemma_mul_nonnegative(x, e);
    lemma_fundamental_div_mod_converse(x * m, big, q, left);
}

/// The dead-zone quantizer divides: below its threshold, the rounded share
/// 84/128 or 80/128 of the step, a coefficient has level zero, and above it
/// the level is the quotient by the step of its magnitude and 48/128 of the
/// step. Both shares are 64/128 at index zero.
pub proof fn dead_zone_levels_are_quotients(t: QuantTable, qindex: int, saturate: bool, rc: int, c: int)
    requires
        is_quant_table(t, qindex, 8, 0),
        0 <= qindex < 256,
        0 <= rc,
        abs_int(c) < 0x7000,
    ensures
        ({
            let k = Kernel { dead_zone: true, saturate };
            let step = t.dequant[if rc == 0 {
                0int
            } else {
                1
            }] as int;
            let (share, threshold): (int, int) = if qindex == 0 {
                (64, 64)
            } else if dc_step(qindex, 8) < 148 {
                (48, 84)
            } else {
                (48, 80)
            };
            level_of(k, t, 0, None, rc, c) == if abs_int(c) < (threshold * step + 64) / 128 {
                0
            } else {
                (abs_int(c) + share * step / 128) / step
            }
        }),
{
    let i: int = if rc == 0 {
        0
    } else {
        1
    };
    let step = t.dequant[i] as int;
    lemma2_to64();
    lemma_step_bounds(qindex, 8);
    let x = abs_int(c) + t.round[i];
    lemma_exact_quotient(x, step);
    assert((t.round[i] as int) / 1 == t.round[i]);
}

/// The fixed-point quantizer rounds: a coefficient below half a step has level
/// zero, and every other is reconstructed to within a step below and half a
/// step above its magnitude.
pub proof fn fixed_point_levels_stay_within_a_step(t: QuantTable, qindex: int, saturate: bool, rc: int, c: int)
    requires
        is_quant_table(t, qindex, 8, 0),
        0 <= qindex < 256,
        0 <= rc,
        abs_int(c) < 0x7000,
    ensures
        ({
            let k = Kernel { dead_zone: false, saturate };
            let step = t.dequant[if rc == 0 {
                0int
            } else {
                1
            }] as int;
            let level = level_of(k, t, 0, None, rc, c);
            &&& 2 * abs_int(c) < step ==> level == 0
            &&& 2 * abs_int(c) >= step ==> abs_int(c) - step <= level * step <= abs_int(c) + step / 2
        }),
{
    let k = Kernel { dead_zone: false, saturate };
    let i: int = if rc == 0 {
        0
    } else {
        1
    };
    let step = t.dequant[i] as int;
    lemma2_to64();
    lemma_step_bounds(qindex, 8);
    let a = abs_int(c);
    let x = a + step / 2;
    assert(t.round_fp[i] == step / 2);
    assert((t.round_fp[i] as int) / 1 == t.round_fp[i]);
    let f = 0x1_0000int / step;
    let level = (x * f) / 0x1_0000;
    lemma_fundamental_div_mod(0x1_0000, step);
    lemma_mod_bound(0x1_0000, step);
    lemma_fundamental_div_mod(x * f, 0x1_0000);
    lemma_mod_bound(x * f, 0x1_0000);
    let r = 0x1_0000int % step;
    let y = (x * f) % 0x1_0000;
    assert(level * step <= x && x - level * step < step + step / 2 + 1) by (nonlinear_arith)
        requires
            0x1_0000 == step * f + r,
            0 <= r < step,
            x * f == 0x1_0000 * level + y,
            0 <= y < 0x1_0000,
            0 <= x < 0x8000,
            1 <= step,
            0 <= f,
    ;
    assert(a * pow2(1) == 2 * a) by (nonlinear_arith)
        requires
            pow2(1) == 2,
    ;
}

/// A reconstruction is its level times the step of its position, scaled down
/// and rounded toward zero, with the sign of the coefficient.
pub proof fn reconstructions_are_levels_in_steps(
    k: Kernel,
    coeffs: Seq<i32>,
    visited: spec_fn(int) -> bool,
    t: QuantTable,
    ls: nat,
    q0: Seq<i32>,
    d0: Seq<i32>,
    q: Seq<i32>,
    d: Seq<i32>,
    rc: int,
)
    requires
        quantized_block(k, coeffs, visited, t, ls, None, None, q0, d0, q, d),
        0 <= rc < coeffs.len(),
        0 <= t.dequant[0],
        0 <= t.dequant[1],
    ensures
        ({
            let step = t.dequant[if rc == 0 {
                0int
            } else {
                1
            }] as int;
            let p = pow2(ls) as int;
            &&& abs_int(d[rc] as int) * p <= abs_int(q[rc] as int) * step < (abs_int(d[rc] as int) + 1) * p
            &&& d[rc] < 0 ==> coeffs[rc] < 0
            &&& d[rc] > 0 ==> coeffs[rc] >= 0
        }),
{
    let step = t.dequant[if rc == 0 {
        0int
    } else {
        1
    }] as int;
    let p = pow2(ls) as int;
    lemma_pow2_pos(ls);
    let v = abs_int(q[rc] as int) * step;
    lemma_mul_nonnegative(abs_int(q[rc] as int), step);
    assert((step * 32 + 16) / 32 == step);
    lemma_fundamental_div_mod(v, p);
    lemma_mod_bound(v, p);
    vstd::arithmetic::div_mod::lemma_div_pos_is_pos(v, p);
    assert((v / p + 1) * p == p * (v / p) + p) by (nonlinear_arith);
    assert((v / p) * p == p * (v / p)) by (nonlinear_arith);
}

/// Positive sharpness narrows the dead zone and rounds up more, below index
/// 31, and negative sharpness does the opposite, above it: by twice its amount
/// and by no less, or no more, than the distance to that index. Elsewhere, and
/// without sharpness, nothing moves.
pub proof fn sharpness_moves_the_dead_zone(base: int, qindex: int, sharpness: int)
    requires
        1 <= base <= 256,
        0 <= qindex < 256,
    ensures
        ({
            let z = sharp_zbin_factor(base, qindex, sharpness);
            let r = sharp_round_factor(base, qindex, sharpness);
            &&& sharpness > 0 && qindex < 31 ==> {
                let by = if 2 * sharpness >= 31 - qindex {
                    2 * sharpness
                } else {
                    31 - qindex
                };
                &&& z == (if base - by >= 1 {
                    base - by
                } else {
                    1
                })
                &&& r == (if base + by <= 256 {
                    base + by
                } else {
                    256
                })
            }
            &&& sharpness < 0 && qindex > 31 ==> {
                let by = if -2 * sharpness <= qindex - 31 {
                    -2 * sharpness
                } else {
                    qindex - 31
                };
                &&& z == (if base + by <= 256 {
                    base + by
                } else {
                    256
                })
                &&& r == (if base - by >= 1 {
                    base - by
                } else {
                    1
                })
            }
            &&& sharpness == 0 || qindex == 31 || (sharpness > 0 && qindex > 31) || (sharpness < 0 && qindex < 31) ==> z
                == base && r == base
        }),
{
}

/// The rows of a table follow their step: half of it rounds in fixed point, and
/// the reciprocal is the largest that keeps the product below 2^16.
pub proof fn tables_follow_their_step(t: QuantTable, qindex: int, bit_depth: int, sharpness: int, i: int)
    requires
        is_quant_table(t, qindex, bit_depth, sharpness),
        i == 0 || i == 1,
        t.dequant[i] > 0,
    ensures
        ({
            let step = t.dequant[i] as int;
            &&& 2 * t.round_fp[i] <= step < 2 * t.round_fp[i] + 2
            &&& step * t.quant_fp[i] <= 65536 < step * t.quant_fp[i] + step
        }),
{
    let step = t.dequant[i] as int;
    lemma_fundamental_div_mod(0x1_0000, step);
}

} // verus!
