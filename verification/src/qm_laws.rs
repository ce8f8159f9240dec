//! What the weight matrices keep: flat weights of unity change nothing.

use vstd::arithmetic::div_mod::{lemma_div_denominator, lemma_div_multiples_vanish, lemma_hoist_over_denominator};
use vstd::arithmetic::mul::{lemma_mul_is_associative, lemma_mul_is_commutative, lemma_mul_nonnegative};
use vstd::arithmetic::power2::{lemma2_to64, lemma_pow2_adds, lemma_pow2_pos, pow2};
use vstd::prelude::*;

use crate::arith::abs_int;
use crate::quant::{
    entry_of, ilog2, inverse_shift, lemma_level_fits, level_of, quantized_block, rounded_magnitude, row_wf, table_wf,
    weight_at, with_sign, Kernel, QuantTable, COEFF_LIMIT,
};

verus! {

/// The normalizing factors belong to their step sizes, none of which is below
/// the scale of the block.
pub open spec fn shifts_fit(t: QuantTable, ls: nat) -> bool {
    forall|i: int|
        0 <= i < 2 ==> (#[trigger] t.quant_shift[i]) == inverse_shift(t.dequant[i] as int) && ls <= ilog2(
            t.dequant[i] as int,
        ) <= 16
}

/// Every weight of the first `n` is unity.
pub open spec fn is_flat(wt: Seq<u8>, n: int) -> bool {
    n <= wt.len() && forall|i: int| 0 <= i < n ==> #[trigger] wt[i] == 32
}

proof fn lemma_cancel(x: int, a: int, b: int)
    requires
        0 <= x,
        0 < a,
        0 < b,
    ensures
        (x * a) / (b * a) == x / b,
{
    lemma_mul_is_commutative(x, a);
    lemma_mul_is_commutative(b, a);
    lemma_mul_nonnegative(x, a);
    lemma_div_denominator(a * x, a, b);
    lemma_div_multiples_vanish(x, a);
}

proof fn lemma_sum(x: int, quant: int)
    requires
        0 <= x,
        0 <= quant + 0x1_0000,
    ensures
        (x * quant) / 0x1_0000 + x == (x * (quant + 0x1_0000)) / 0x1_0000,
        0 <= x * (quant + 0x1_0000),
{
    lemma_hoist_over_denominator(x * quant, x, 0x1_0000);
    vstd::arithmetic::mul::lemma_mul_is_distributive_add(x, quant, 0x1_0000);
    lemma_mul_nonnegative(x, quant + 0x1_0000);
}

proof fn lemma_dead_zone(s: int, quant: int, l: nat, ls: nat)
    requires
        0 <= s,
        0 <= quant + 0x1_0000,
        ls <= 4,
        ls <= l <= 16,
    ensures
        (((s * 32) * quant) / 0x1_0000 + s * 32) * pow2((16 - l) as nat) / (pow2((21 - ls) as nat) as int) == ((s
            * quant) / 0x1_0000 + s) * pow2((16 - l) as nat) / (pow2((16 - ls) as nat) as int),
{
    lemma2_to64();
    let j = (16 - l) as nat;
    let g = (l - ls) as nat;
    let q = quant + 0x1_0000;
    let p = pow2(j) as int;
    lemma_pow2_pos(j);
    lemma_pow2_pos(g);
    lemma_pow2_adds(g, j);
    lemma_pow2_adds(5, g);
    lemma_pow2_adds(5 + g, j);
    let pg = pow2(g) as int;
    lemma_sum(s, quant);
    lemma_sum(s * 32, quant);
    let x1 = (s * q) / 0x1_0000;
    let x2 = ((s * 32) * q) / 0x1_0000;
    vstd::arithmetic::div_mod::lemma_div_pos_is_pos(s * q, 0x1_0000);
    vstd::arithmetic::div_mod::lemma_div_pos_is_pos((s * 32) * q, 0x1_0000);
    lemma_cancel(x1, p, pg);
    lemma_cancel(x2, p, 32 * pg);
    lemma_div_denominator(s * q, 0x1_0000, pg);
    lemma_div_denominator((s * 32) * q, 0x1_0000, 32 * pg);
    lemma_mul_is_associative(s, 32, q);
    lemma_mul_is_commutative(32, q);
    lemma_mul_is_associative(s, q, 32);
    lemma_cancel(s * q, 32, 0x1_0000 * pg);
    assert(0x1_0000 * (32 * pg) == (0x1_0000 * pg) * 32);
}

proof fn lemma_fixed_point(s: int, quant_fp: int, ls: nat)
    requires
        0 <= s,
        0 <= quant_fp,
        ls <= 4,
    ensures
        ((s * 32) * quant_fp) / (pow2((21 - ls) as nat) as int) == (s * quant_fp) / (pow2((16 - ls) as nat) as int),
{
    lemma2_to64();
    lemma_pow2_adds((16 - ls) as nat, 5);
    lemma_pow2_pos((16 - ls) as nat);
    lemma_mul_nonnegative(s, quant_fp);
    lemma_mul_is_associative(s, 32, quant_fp);
    lemma_mul_is_commutative(32, quant_fp);
    lemma_mul_is_associative(s, quant_fp, 32);
    lemma_cancel(s * quant_fp, 32, pow2((16 - ls) as nat) as int);
}

proof fn lemma_threshold(a: int, d: int, ls: nat)
    requires
        ls <= 4,
    ensures
        a * 32 >= d * pow2((4 - ls) as nat) <==> a * pow2(1 + ls) >= d,
{
    lemma2_to64();
    let p = pow2((4 - ls) as nat) as int;
    let r = pow2(1 + ls) as int;
    lemma_pow2_adds((4 - ls) as nat, 1 + ls);
    lemma_pow2_pos((4 - ls) as nat);
    assert(p * r == 32);
    lemma_mul_is_associative(a, r, p);
    lemma_mul_is_commutative(r, p);
    if a * r >= d {
        vstd::arithmetic::mul::lemma_mul_inequality(d, a * r, p);
    } else {
        vstd::arithmetic::mul::lemma_mul_strict_inequality(a * r, d, p);
    }
}

/// A weight of unity leaves the level of a coefficient as it is without one.
pub proof fn flat_weight_keeps_level(k: Kernel, t: QuantTable, ls: nat, rc: int, c: int)
    requires
        table_wf(t),
        ls <= 4,
        k.dead_zone ==> shifts_fit(t, ls),
        -COEFF_LIMIT <= c <= COEFF_LIMIT,
    ensures
        level_of(k, t, ls, Some(32), rc, c) == level_of(k, t, ls, None, rc, c),
{
    let i = entry_of(rc);
    let s = rounded_magnitude(k, t, ls, rc, c);
    assert(row_wf(t, i));
    lemma_level_fits(k, t, ls, None, rc, c);
    if k.dead_zone {
        assert(t.quant_shift[i] == inverse_shift(t.dequant[i] as int));
        lemma_dead_zone(s, t.quant[i] as int, ilog2(t.dequant[i] as int), ls);
    } else {
        lemma_fixed_point(s, t.quant_fp[i] as int, ls);
        lemma_threshold(abs_int(c), t.dequant[i] as int, ls);
    }
}

/// Quantizing a block with flat matrices of unity gives what quantizing it
/// without matrices gives.
pub proof fn flat_matrices_change_nothing(
    k: Kernel,
    coeffs: Seq<i32>,
    visited: spec_fn(int) -> bool,
    t: QuantTable,
    ls: nat,
    wt: Seq<u8>,
    iwt: Seq<u8>,
    q0: Seq<i32>,
    d0: Seq<i32>,
    q: Seq<i32>,
    d: Seq<i32>,
)
    requires
        table_wf(t),
        ls <= 4,
        k.dead_zone ==> shifts_fit(t, ls),
        is_flat(wt, coeffs.len() as int),
        is_flat(iwt, coeffs.len() as int),
        coeffs.len() <= q.len(),
        coeffs.len() <= d.len(),
        forall|rc: int| 0 <= rc < coeffs.len() ==> -COEFF_LIMIT <= #[trigger] coeffs[rc] <= COEFF_LIMIT,
    ensures
        quantized_block(k, coeffs, visited, t, ls, Some(wt), Some(iwt), q0, d0, q, d) == quantized_block(
            k,
            coeffs,
            visited,
            t,
            ls,
            None,
            None,
            q0,
            d0,
            q,
            d,
        ),
{
    assert forall|rc: int| 0 <= rc < coeffs.len() implies level_of(
        k,
        t,
        ls,
        Some(#[trigger] wt[rc] as int),
        rc,
        coeffs[rc] as int,
    ) == level_of(k, t, ls, None, rc, coeffs[rc] as int) by {
        assert(-COEFF_LIMIT <= coeffs[rc] <= COEFF_LIMIT);
        flat_weight_keeps_level(k, t, ls, rc, coeffs[rc] as int);
    }
    if quantized_block(k, coeffs, visited, t, ls, Some(wt), Some(iwt), q0, d0, q, d) {
        assert forall|rc: int| 0 <= rc < coeffs.len() implies (#[trigger] q[rc]) == if visited(rc) {
            with_sign(level_of(k, t, ls, None, rc, coeffs[rc] as int), coeffs[rc] as int)
        } else {
            0
        } by {
            assert(wt[rc] == 32);
        }
        assert(quantized_block(k, coeffs, visited, t, ls, None, None, q0, d0, q, d));
    }
    if quantized_block(k, coeffs, visited, t, ls, None, None, q0, d0, q, d) {
        assert forall|rc: int| 0 <= rc < coeffs.len() implies (#[trigger] q[rc]) == if visited(rc) {
            with_sign(
                level_of(k, t, ls, weight_at(Some(wt), rc), rc, coeffs[rc] as int),
                coeffs[rc] as int,
            )
        } else {
            0
        } by {
            assert(wt[rc] == 32);
        }
        assert(quantized_block(k, coeffs, visited, t, ls, Some(wt), Some(iwt), q0, d0, q, d));
    }
}

/// Matrices lie level by level, luma before chroma, each pair of them as long
/// as all sizes together take.
pub proof fn matrices_lie_level_by_level(level: int, tx: int)
    requires
        0 <= tx < 19,
    ensures
        crate::qm::qm_start(level, true, tx) - crate::qm::qm_start(level, false, tx) == 3344,
        crate::qm::qm_start(level + 1, false, tx) - crate::qm::qm_start(level, true, tx) == 3344,
        crate::qm::qm_start(0, false, tx) == crate::qm::QM_OFFSET[tx],
{
}

/// The level of a still picture is the nearest to its curve.
pub proof fn still_levels_are_nearest(n: int)
    ensures
        ({
            let one: int = 10_000_000_000_000_000_000_000;
            let r = crate::qm::still_level_rounded(n);
            &&& -one <= 2 * (n - r * one) <= one
            &&& n >= 0 ==> r >= 0
            &&& n <= 0 ==> r <= 0
            &&& crate::qm::still_level_rounded(-n) == -r
        }),
{
}

} // verus!
