//! Coefficient quantization: the per-index quantizer rows, the dead-zone and
//! fixed-point quantizers at both bit depths, and the picture-level policy
//! that picks a rate-distortion optimization level.

use vstd::arithmetic::div_mod::{lemma_div_basics, lemma_div_pos_is_pos, lemma_fundamental_div_mod};
use vstd::arithmetic::mul::{
    lemma_mul_basics, lemma_mul_inequality, lemma_mul_is_associative, lemma_mul_is_commutative,
    lemma_mul_is_distributive_add, lemma_mul_is_distributive_add_other_way, lemma_mul_nonnegative,
    lemma_mul_unary_negation, lemma_mul_upper_bound,
};
use vstd::arithmetic::power2::{
    lemma2_to64, lemma_pow2_adds, lemma_pow2_pos, lemma_pow2_strictly_increases, lemma_pow2_unfold, pow2,
};
use vstd::prelude::*;

use crate::arith::{abs_i32, abs_int, clamp_i32, clamp_int, max_int, min_int, pow2_i64, round_shift, shr_i64, shr_int};
use crate::qm::dqv_qm;
use crate::quant_tables::{
    ac_step, dc_step, lemma_step_bounds, AC_QLOOKUP_10, AC_QLOOKUP_8, DC_QLOOKUP_10, DC_QLOOKUP_8,
};

verus! {

/// One quantizer row. Entry 0 serves the DC coefficient, entry 1 the rest.
#[derive(Debug, Clone, Copy, PartialEq, Eq)]
pub struct QuantTable {
    /// Dead-zone threshold.
    pub zbin: [i32; 2],
    /// Rounding offset of the dead-zone quantizer.
    pub round: [i32; 2],
    /// Fixed-point reciprocal, less `2^16`.
    pub quant: [i32; 2],
    /// Normalizing factor that goes with `quant`.
    pub quant_shift: [i32; 2],
    /// Rounding offset of the fixed-point quantizer.
    pub round_fp: [i32; 2],
    /// `floor(2^16 / step)`.
    pub quant_fp: [i32; 2],
    /// The step size itself.
    pub dequant: [i32; 2],
    /// Quantization-matrix level; 15 means no matrix.
    pub qm_level: u8,
}

/// `floor(log2(d))` for `d >= 1`.
pub open spec fn ilog2(d: int) -> nat
    decreases d,
{
    if d < 2 {
        0
    } else {
        1 + ilog2(d / 2)
    }
}

/// The fixed-point reciprocal of `d`, less `2^16`.
pub open spec fn inverse_quant(d: int) -> int {
    1 + pow2(16 + ilog2(d)) as int / d - 0x1_0000
}

/// The normalizing factor that goes with [`inverse_quant`].
pub open spec fn inverse_shift(d: int) -> int {
    pow2((16 - ilog2(d)) as nat) as int
}

/// `2^ilog2(d) <= d < 2^(ilog2(d) + 1)`.
pub proof fn lemma_ilog2(d: int)
    requires
        1 <= d,
    ensures
        pow2(ilog2(d)) <= d < pow2(ilog2(d) + 1),
    decreases d,
{
    lemma2_to64();
    if d >= 2 {
        lemma_ilog2(d / 2);
        lemma_pow2_unfold(ilog2(d / 2) + 1);
        lemma_pow2_unfold(ilog2(d / 2) + 2);
    }
}

/// `floor(log2(d))`.
pub fn floor_log2(d: u32) -> (l: u32)
    requires
        1 <= d,
    ensures
        l == ilog2(d as int),
        l < 32,
{
    let mut t: u32 = d;
    let mut l: u32 = 0;
    while t > 1
        invariant
            1 <= t <= d,
            ilog2(d as int) == l + ilog2(t as int),
            l as int + t as int <= d as int,
        decreases t,
    {
        t = t / 2;
        l = l + 1;
    }
    proof {
        lemma_ilog2(d as int);
        lemma2_to64();
        if l >= 32 {
            if l > 32 {
                lemma_pow2_strictly_increases(32, l as nat);
            }
        }
    }
    l
}

/// A row whose fixed-point entries belong to its step sizes.
///
/// `quant_fp` and the pair (`quant`, `quant_shift`) are reciprocals of
/// `dequant` up to the stated slack, so that dequantizing a level never
/// exceeds the magnitude it came from by more than that slack.
pub open spec fn row_wf(t: QuantTable, i: int) -> bool {
    &&& 1 <= t.dequant[i] <= 0x8000
    &&& 0 <= t.zbin[i] <= 0x1_0000
    &&& 0 <= t.round[i] <= 0x1_0000
    &&& 0 <= t.round_fp[i] <= 0x1_0000
    &&& 0 <= t.quant_fp[i]
    &&& t.quant_fp[i] * t.dequant[i] <= 0x1_0000
    &&& 0 <= t.quant[i] + 0x1_0000 <= 0x1_0001
    &&& 0 <= t.quant_shift[i] <= 0x1_0000
    &&& ((t.quant[i] + 0x1_0000) * t.quant_shift[i]) * t.dequant[i] <= 0x1_0002_0000
}

/// Both entries are well formed.
pub open spec fn table_wf(t: QuantTable) -> bool {
    &&& row_wf(t, 0)
    &&& row_wf(t, 1)
}

proof fn lemma_reciprocal_slack(d: int, p: int, s: int, quot: int, rem: int)
    requires
        1 <= p <= d < 2 * p,
        s >= 1,
        s * p == 0x1_0000,
        0x1_0000 * p == d * quot + rem,
        0 <= rem,
    ensures
        ((1 + quot) * s) * d <= 0x1_0002_0000,
{
    let x = (1 + quot) * d;
    lemma_mul_is_distributive_add_other_way(d, 1, quot);
    lemma_mul_is_commutative(d, quot);
    assert(x <= d + 0x1_0000 * p);
    lemma_mul_is_associative(1 + quot, s, d);
    lemma_mul_is_commutative(s, d);
    lemma_mul_is_associative(1 + quot, d, s);
    lemma_mul_inequality(x, d + 0x1_0000 * p, s);
    lemma_mul_is_distributive_add_other_way(s, d, 0x1_0000 * p);
    lemma_mul_is_associative(0x1_0000, p, s);
    lemma_mul_is_commutative(p, s);
    lemma_mul_inequality(d, 2 * p, s);
    lemma_mul_is_associative(2, p, s);
}

/// The reciprocal pair of a step size: `(quant, quant_shift)`.
pub fn invert_quant(d: i32) -> (r: (i32, i32))
    requires
        1 <= d <= 0x8000,
    ensures
        r.0 == inverse_quant(d as int),
        r.1 == inverse_shift(d as int),
        0 <= r.0 + 0x1_0000 <= 0x1_0001,
        0 <= r.1 <= 0x1_0000,
        ((r.0 + 0x1_0000) * r.1) * d <= 0x1_0002_0000,
{
    let l: u32 = floor_log2(d as u32);
    proof {
        lemma_ilog2(d as int);
        let n = ilog2(d as int);
        assert(n == l);
        lemma2_to64();
        if n > 15 {
            lemma_pow2_strictly_increases(15, n);
        }
        lemma_pow2_adds(16, n);
        lemma_pow2_adds((16 - n) as nat, n);
        lemma_pow2_unfold(n + 1);
        lemma_pow2_pos(n);
        lemma_pow2_pos((16 - n) as nat);
        let p = pow2(n) as int;
        let s = pow2((16 - n) as nat) as int;
        let big = pow2(16 + n) as int;
        let m = 1 + big / (d as int);
        assert(big == 0x1_0000 * p);
        assert(s * p == 0x1_0000);
        lemma_fundamental_div_mod(big, d as int);
        assert(0 <= m <= 0x1_0001) by (nonlinear_arith)
            requires
                m == 1 + big / (d as int),
                big == 0x1_0000 * p,
                1 <= p <= d,
                d >= 1,
                big == d as int * (big / (d as int)) + big % (d as int),
                0 <= big % (d as int),
        ;
        assert(s <= 0x1_0000) by (nonlinear_arith)
            requires
                s * p == 0x1_0000,
                p >= 1,
                s >= 0,
        ;
        lemma_reciprocal_slack(d as int, p, s, big / (d as int), big % (d as int));
    }
    let m: i64 = 1 + pow2_i64(16 + l) / (d as i64);
    let s: i64 = pow2_i64(16 - l);
    ((m - 0x1_0000) as i32, s as i32)
}

/// The reference index the sharpness offsets are measured from.
pub const QUANT_SHARPNESS_BASE_Q_IDX: i32 = 31;

/// Sharpness moves the dead zone only on one side of the reference index:
/// below it for positive sharpness, above it for negative sharpness.
pub open spec fn sharpness_applies(qindex: int, sharpness: int) -> bool {
    (sharpness > 0 && qindex < 31) || (sharpness < 0 && qindex > 31)
}

/// How far sharpness moves the dead-zone factors.
pub open spec fn sharpness_offset(qindex: int, sharpness: int) -> int {
    if sharpness > 0 {
        max_int(2 * sharpness, abs_int(qindex - 31))
    } else {
        min_int(-2 * sharpness, qindex - 31)
    }
}

/// The dead-zone factor after the sharpness adjustment.
pub open spec fn sharp_zbin_factor(base: int, qindex: int, sharpness: int) -> int {
    if !sharpness_applies(qindex, sharpness) {
        base
    } else if sharpness > 0 {
        clamp_int(base - sharpness_offset(qindex, sharpness), 1, 256)
    } else {
        clamp_int(base + sharpness_offset(qindex, sharpness), 1, 256)
    }
}

/// The rounding factor after the sharpness adjustment.
pub open spec fn sharp_round_factor(base: int, qindex: int, sharpness: int) -> int {
    if !sharpness_applies(qindex, sharpness) {
        base
    } else if sharpness > 0 {
        clamp_int(base + sharpness_offset(qindex, sharpness), 1, 256)
    } else {
        clamp_int(base - sharpness_offset(qindex, sharpness), 1, 256)
    }
}

/// The dead-zone factor before sharpness: 64 at index 0, then 84 for small
/// DC steps and 80 for large ones.
pub open spec fn base_zbin_factor(qindex: int, bit_depth: int) -> int {
    if qindex == 0 {
        64
    } else if dc_step(qindex, bit_depth) < (if bit_depth == 8 {
        148int
    } else {
        592int
    }) {
        84
    } else {
        80
    }
}

/// The rounding factor before sharpness.
pub open spec fn base_round_factor(qindex: int) -> int {
    if qindex == 0 {
        64
    } else {
        48
    }
}

/// Entry `i` of a row holds exactly the values derived from `step`.
pub open spec fn row_is(t: QuantTable, i: int, step: int, zbin_factor: int, round_factor: int) -> bool {
    &&& t.zbin[i] == (zbin_factor * step + 64) / 128
    &&& t.round[i] == (round_factor * step) / 128
    &&& t.quant[i] == inverse_quant(step)
    &&& t.quant_shift[i] == inverse_shift(step)
    &&& t.round_fp[i] == step / 2
    &&& t.quant_fp[i] == 0x1_0000int / step
    &&& t.dequant[i] == step
}

/// `t` is the quantizer row of `qindex` at `bit_depth` and `sharpness`.
pub open spec fn is_quant_table(t: QuantTable, qindex: int, bit_depth: int, sharpness: int) -> bool {
    let zf = sharp_zbin_factor(base_zbin_factor(qindex, bit_depth), qindex, sharpness);
    let rf = sharp_round_factor(base_round_factor(qindex), qindex, sharpness);
    &&& row_is(t, 0, dc_step(qindex, bit_depth), zf, rf)
    &&& row_is(t, 1, ac_step(qindex, bit_depth), zf, rf)
    &&& t.qm_level == 15
}

fn apply_quant_sharpness_factors(qzbin: i32, qround: i32, qindex: u8, sharpness: i8) -> (r: (i32, i32))
    requires
        1 <= qzbin <= 256,
        1 <= qround <= 256,
    ensures
        r.0 == sharp_zbin_factor(qzbin as int, qindex as int, sharpness as int),
        r.1 == sharp_round_factor(qround as int, qindex as int, sharpness as int),
        1 <= r.0 <= 256,
        1 <= r.1 <= 256,
{
    let sv: i32 = sharpness as i32;
    let diff: i32 = qindex as i32 - QUANT_SHARPNESS_BASE_Q_IDX;
    if (sv > 0 && diff < 0) || (sv < 0 && diff > 0) {
        if sv > 0 {
            let a: i32 = abs_i32(diff);
            let offset: i32 = if 2 * sv >= a {
                2 * sv
            } else {
                a
            };
            (clamp_i32(qzbin - offset, 1, 256), clamp_i32(qround + offset, 1, 256))
        } else {
            let offset: i32 = if 2 * (-sv) <= diff {
                2 * (-sv)
            } else {
                diff
            };
            (clamp_i32(qzbin + offset, 1, 256), clamp_i32(qround - offset, 1, 256))
        }
    } else {
        (qzbin, qround)
    }
}

/// The values one step size contributes to a row.
struct RowEntry {
    zbin: i32,
    round: i32,
    quant: i32,
    quant_shift: i32,
    round_fp: i32,
    quant_fp: i32,
}

fn row_entry(step: i32, zbin_factor: i32, round_factor: i32) -> (r: RowEntry)
    requires
        1 <= step <= 0x8000,
        1 <= zbin_factor <= 256,
        1 <= round_factor <= 256,
    ensures
        r.zbin == (zbin_factor * step + 64) / 128,
        r.round == (round_factor * step) / 128,
        r.quant == inverse_quant(step as int),
        r.quant_shift == inverse_shift(step as int),
        r.round_fp == step / 2,
        r.quant_fp == 0x1_0000int / step as int,
        0 <= r.zbin <= 0x1_0000,
        0 <= r.round <= 0x1_0000,
        0 <= r.round_fp <= 0x1_0000,
        0 <= r.quant_fp,
        r.quant_fp * step <= 0x1_0000,
        0 <= r.quant + 0x1_0000 <= 0x1_0001,
        0 <= r.quant_shift <= 0x1_0000,
        ((r.quant + 0x1_0000) * r.quant_shift) * step <= 0x1_0002_0000,
{
    let (quant, quant_shift) = invert_quant(step);
    proof {
        assert(0 <= zbin_factor * step <= 256 * 0x8000) by (nonlinear_arith)
            requires
                1 <= zbin_factor <= 256,
                1 <= step <= 0x8000,
        ;
        assert(0 <= round_factor * step <= 256 * 0x8000) by (nonlinear_arith)
            requires
                1 <= round_factor <= 256,
                1 <= step <= 0x8000,
        ;
        let q = 0x1_0000int / step as int;
        lemma_fundamental_div_mod(0x1_0000int, step as int);
        assert(q * step <= 0x1_0000 && q >= 0) by (nonlinear_arith)
            requires
                0x1_0000int == step as int * q + 0x1_0000int % step as int,
                0 <= 0x1_0000int % step as int,
                (0x1_0000int % step as int) < step,
                1 <= step,
        ;
    }
    RowEntry {
        zbin: (zbin_factor * step + 64) / 128,
        round: (round_factor * step) / 128,
        quant,
        quant_shift,
        round_fp: (64 * step) / 128,
        quant_fp: 0x1_0000 / step,
    }
}

/// The row of `qindex` at 8 bits, without sharpness.
pub fn build_quant_table(qindex: u8) -> (t: QuantTable)
    ensures
        is_quant_table(t, qindex as int, 8, 0),
        table_wf(t),
{
    build_quant_table_sharp(qindex, 0)
}

/// The row of `qindex` at 8 bits.
pub fn build_quant_table_sharp(qindex: u8, sharpness: i8) -> (t: QuantTable)
    ensures
        is_quant_table(t, qindex as int, 8, sharpness as int),
        table_wf(t),
{
    build_quant_table_bd_sharp(qindex, 8, sharpness)
}

/// The row of `qindex` at `bd` bits, without sharpness.
pub fn build_quant_table_bd(qindex: u8, bd: u8) -> (t: QuantTable)
    requires
        bd == 8 || bd == 10,
    ensures
        is_quant_table(t, qindex as int, bd as int, 0),
        table_wf(t),
{
    build_quant_table_bd_sharp(qindex, bd, 0)
}

/// The row of `qindex` at `bd` bits. Sharpness touches `zbin` and `round`
/// only.
pub fn build_quant_table_bd_sharp(qindex: u8, bd: u8, sharpness: i8) -> (t: QuantTable)
    requires
        bd == 8 || bd == 10,
    ensures
        is_quant_table(t, qindex as int, bd as int, sharpness as int),
        table_wf(t),
{
    proof {
        lemma_step_bounds(qindex as int, bd as int);
    }
    let dc: i32 = if bd == 8 {
        DC_QLOOKUP_8[qindex as usize]
    } else {
        DC_QLOOKUP_10[qindex as usize]
    };
    let ac: i32 = if bd == 8 {
        AC_QLOOKUP_8[qindex as usize]
    } else {
        AC_QLOOKUP_10[qindex as usize]
    };
    let threshold: i32 = if bd == 8 {
        148
    } else {
        592
    };
    let zbin_base: i32 = if qindex == 0 {
        64
    } else if dc < threshold {
        84
    } else {
        80
    };
    let round_base: i32 = if qindex == 0 {
        64
    } else {
        48
    };
    let (zf, rf) = apply_quant_sharpness_factors(zbin_base, round_base, qindex, sharpness);
    let d: RowEntry = row_entry(dc, zf, rf);
    let a: RowEntry = row_entry(ac, zf, rf);
    QuantTable {
        zbin: [d.zbin, a.zbin],
        round: [d.round, a.round],
        quant: [d.quant, a.quant],
        quant_shift: [d.quant_shift, a.quant_shift],
        round_fp: [d.round_fp, a.round_fp],
        quant_fp: [d.quant_fp, a.quant_fp],
        dequant: [dc, ac],
        qm_level: 15,
    }
}

/// A row is determined by its index, bit depth and sharpness.
pub proof fn quant_table_determined(
    a: QuantTable,
    b: QuantTable,
    qindex: int,
    bit_depth: int,
    sharpness: int,
)
    requires
        is_quant_table(a, qindex, bit_depth, sharpness),
        is_quant_table(b, qindex, bit_depth, sharpness),
    ensures
        a.zbin@ == b.zbin@,
        a.round@ == b.round@,
        a.quant@ == b.quant@,
        a.quant_shift@ == b.quant_shift@,
        a.round_fp@ == b.round_fp@,
        a.quant_fp@ == b.quant_fp@,
        a.dequant@ == b.dequant@,
        a.qm_level == b.qm_level,
{
    assert(a.zbin@ =~= b.zbin@);
    assert(a.round@ =~= b.round@);
    assert(a.quant@ =~= b.quant@);
    assert(a.quant_shift@ =~= b.quant_shift@);
    assert(a.round_fp@ =~= b.round_fp@);
    assert(a.quant_fp@ =~= b.quant_fp@);
    assert(a.dequant@ =~= b.dequant@);
}

/// Sharpness leaves the fixed-point quantizer alone: only `zbin` and `round`
/// depend on it.
pub proof fn sharpness_moves_only_the_dead_zone(
    a: QuantTable,
    b: QuantTable,
    qindex: int,
    bit_depth: int,
    sharpness: int,
)
    requires
        is_quant_table(a, qindex, bit_depth, sharpness),
        is_quant_table(b, qindex, bit_depth, 0),
    ensures
        a.quant@ == b.quant@,
        a.quant_shift@ == b.quant_shift@,
        a.round_fp@ == b.round_fp@,
        a.quant_fp@ == b.quant_fp@,
        a.dequant@ == b.dequant@,
{
    assert(a.quant@ =~= b.quant@);
    assert(a.quant_shift@ =~= b.quant_shift@);
    assert(a.round_fp@ =~= b.round_fp@);
    assert(a.quant_fp@ =~= b.quant_fp@);
    assert(a.dequant@ =~= b.dequant@);
}

/// DC step size at 10 bits.
pub fn dc_qlookup_10(qindex: u8) -> (r: i32)
    ensures
        r == dc_step(qindex as int, 10),
{
    DC_QLOOKUP_10[qindex as usize]
}

/// AC step size at 10 bits.
pub fn ac_qlookup_10(qindex: u8) -> (r: i32)
    ensures
        r == ac_step(qindex as int, 10),
{
    AC_QLOOKUP_10[qindex as usize]
}

/// Scale of a transform size: large transforms keep `2^scale` times fewer
/// fractional bits.
pub const TX_SCALE_TAB: [i32; 19] = [0, 0, 0, 1, 2, 0, 0, 0, 0, 1, 1, 2, 2, 0, 0, 0, 0, 1, 1];

/// Largest coefficient magnitude the quantizers accept. Transform
/// coefficients of 12-bit video stay below a quarter of it.
pub const COEFF_LIMIT: i32 = 0x40_0000;

/// Which quantizer runs.
#[derive(Debug, Clone, Copy, PartialEq, Eq)]
pub struct Kernel {
    /// Dead-zone quantizer when set, fixed-point quantizer otherwise.
    pub dead_zone: bool,
    /// Saturate the rounded magnitude to 16 bits, as 8-bit coding does.
    pub saturate: bool,
}

/// Row entry of a raster position: the DC coefficient has its own.
pub open spec fn entry_of(rc: int) -> int {
    if rc == 0 {
        0
    } else {
        1
    }
}

/// The rounded magnitude a level is computed from.
pub open spec fn rounded_magnitude(k: Kernel, t: QuantTable, ls: nat, rc: int, c: int) -> int {
    let i = entry_of(rc);
    let offset = if k.dead_zone {
        t.round[i]
    } else {
        t.round_fp[i]
    };
    let s = abs_int(c) + round_shift(offset as int, ls);
    if k.saturate {
        clamp_int(s, -0x8000, 0x7fff)
    } else {
        s
    }
}

/// Whether a coefficient is large enough to be quantized at all. `w` is the
/// matrix weight of its position, where 32 is unity.
pub open spec fn above_threshold(k: Kernel, t: QuantTable, ls: nat, w: Option<int>, rc: int, c: int) -> bool {
    let i = entry_of(rc);
    let a = abs_int(c);
    if k.dead_zone {
        let zbin = round_shift(t.zbin[i] as int, ls);
        match w {
            None => a >= zbin,
            Some(w) => a * w >= zbin * 32,
        }
    } else {
        match w {
            None => a * pow2(1 + ls) >= t.dequant[i],
            Some(w) => a * w >= t.dequant[i] * pow2((4 - ls) as nat),
        }
    }
}

/// Level of a coefficient that is [`above_threshold`], from its rounded and
/// weighted magnitude `x`, in units of `2^-n`.
pub open spec fn scaled_level(k: Kernel, t: QuantTable, i: int, x: int, n: nat) -> int {
    if k.dead_zone {
        ((x * t.quant[i]) / 0x1_0000 + x) * t.quant_shift[i] / (pow2(n) as int)
    } else {
        (x * t.quant_fp[i]) / (pow2(n) as int)
    }
}

/// The level magnitude of the coefficient `c` at raster position `rc`.
pub open spec fn level_of(k: Kernel, t: QuantTable, ls: nat, w: Option<int>, rc: int, c: int) -> int {
    let i = entry_of(rc);
    let s = rounded_magnitude(k, t, ls, rc, c);
    if !above_threshold(k, t, ls, w, rc, c) {
        0
    } else {
        match w {
            None => scaled_level(k, t, i, s, (16 - ls) as nat),
            Some(w) => scaled_level(k, t, i, s * w, (21 - ls) as nat),
        }
    }
}

/// The step size at a raster position under the inverse matrix weight `iw`,
/// where 32 is unity.
pub open spec fn weighted_step(dequant: Seq<i32>, rc: int, iw: int) -> int {
    (dequant[entry_of(rc)] * iw + 16) / 32
}

/// The magnitude a decoder reconstructs from a level magnitude.
pub open spec fn reconstructed(level: int, step: int, ls: nat) -> int {
    (level * step) / (pow2(ls) as int)
}

/// `mag` with the sign of `like`.
pub open spec fn with_sign(mag: int, like: int) -> int {
    if like < 0 {
        -mag
    } else {
        mag
    }
}

/// Matrix weight at a position, absent without a matrix.
pub open spec fn weight_at(wt: Option<Seq<u8>>, rc: int) -> Option<int> {
    match wt {
        None => None,
        Some(m) => Some(m[rc] as int),
    }
}

/// Inverse matrix weight at a position, unity without a matrix.
pub open spec fn inverse_weight_at(iwt: Option<Seq<u8>>, rc: int) -> int {
    match iwt {
        None => 32,
        Some(m) => m[rc] as int,
    }
}

/// One past the last scan position that holds a nonzero level.
pub open spec fn eob_of(scan: Seq<u16>, q: Seq<i32>) -> int
    decreases scan.len(),
{
    if scan.len() == 0 {
        0
    } else if q[scan.last() as int] != 0 {
        scan.len() as int
    } else {
        eob_of(scan.drop_last(), q)
    }
}

/// What quantizing a block leaves behind. `visited` says which raster
/// positions the kernel visits; the others in the block become zero, and the
/// buffers beyond the block keep their contents.
pub open spec fn quantized_block(
    k: Kernel,
    coeffs: Seq<i32>,
    visited: spec_fn(int) -> bool,
    t: QuantTable,
    ls: nat,
    wt: Option<Seq<u8>>,
    iwt: Option<Seq<u8>>,
    q0: Seq<i32>,
    d0: Seq<i32>,
    q: Seq<i32>,
    d: Seq<i32>,
) -> bool {
    &&& q.len() == q0.len()
    &&& d.len() == d0.len()
    &&& forall|rc: int|
        0 <= rc < coeffs.len() ==> (#[trigger] q[rc]) == if visited(rc) {
            with_sign(level_of(k, t, ls, weight_at(wt, rc), rc, coeffs[rc] as int), coeffs[rc] as int)
        } else {
            0
        }
    &&& forall|rc: int|
        0 <= rc < coeffs.len() ==> (#[trigger] d[rc]) == with_sign(
            reconstructed(
                abs_int(q[rc] as int),
                weighted_step(t.dequant@, rc, inverse_weight_at(iwt, rc)),
                ls,
            ),
            coeffs[rc] as int,
        )
    &&& forall|rc: int| coeffs.len() <= rc < q.len() ==> #[trigger] q[rc] == q0[rc]
    &&& forall|rc: int| coeffs.len() <= rc < d.len() ==> #[trigger] d[rc] == d0[rc]
}

/// Inputs the quantizers are defined on.
pub open spec fn quantizer_inputs(
    coeffs: Seq<i32>,
    scan: Seq<u16>,
    t: QuantTable,
    log_scale: i32,
    q_len: int,
    d_len: int,
) -> bool {
    &&& table_wf(t)
    &&& 0 <= log_scale <= 4
    &&& coeffs.len() <= q_len
    &&& coeffs.len() <= d_len
    &&& scan.len() < 0x1_0000
    &&& forall|i: int| 0 <= i < coeffs.len() ==> -COEFF_LIMIT <= #[trigger] coeffs[i] <= COEFF_LIMIT
    &&& forall|i: int| 0 <= i < scan.len() ==> (#[trigger] scan[i]) < coeffs.len()
}

proof fn lemma_fp_product(x: int, qfp: int, d: int, p: int)
    requires
        0 <= x,
        0 <= qfp,
        1 <= d,
        qfp * d <= 0x1_0000,
        1 <= p,
    ensures
        0 <= (x * qfp) / p,
        (((x * qfp) / p) * d) * p <= x * 0x1_0002,
{
    let y = x * qfp;
    let level = y / p;
    lemma_mul_nonnegative(x, qfp);
    lemma_div_pos_is_pos(y, p);
    lemma_fundamental_div_mod(y, p);
    lemma_mul_is_commutative(p, level);
    lemma_mul_inequality(level * p, y, d);
    lemma_mul_is_associative(x, qfp, d);
    lemma_mul_is_commutative(x, qfp * d);
    lemma_mul_inequality(qfp * d, 0x1_0000, x);
    lemma_mul_is_associative(level, d, p);
    lemma_mul_is_commutative(d, p);
    lemma_mul_is_associative(level, p, d);
}

proof fn lemma_b_product(x: int, quant: int, qs: int, d: int, p: int)
    requires
        0 <= x,
        0 <= quant + 0x1_0000,
        0 <= qs,
        1 <= d,
        ((quant + 0x1_0000) * qs) * d <= 0x1_0002_0000,
        1 <= p,
    ensures
        0 <= (x * quant) / 0x1_0000 + x,
        0 <= (((x * quant) / 0x1_0000 + x) * qs) / p,
        (((((x * quant) / 0x1_0000 + x) * qs) / p) * d) * p <= x * 0x1_0002,
{
    let m = quant + 0x1_0000;
    let v = (x * quant) / 0x1_0000 + x;
    let level = (v * qs) / p;
    lemma_mul_is_distributive_add(x, quant, 0x1_0000);
    lemma_mul_nonnegative(x, m);
    assert(v * 0x1_0000 <= x * m);
    assert(0 <= v);
    lemma_mul_nonnegative(v, qs);
    lemma_div_pos_is_pos(v * qs, p);
    lemma_fundamental_div_mod(v * qs, p);
    lemma_mul_is_commutative(p, level);
    // level * p <= v * qs, and v * 2^16 * qs <= x * m * qs
    lemma_mul_inequality(v * 0x1_0000, x * m, qs);
    lemma_mul_is_associative(x, m, qs);
    lemma_mul_is_associative(v, 0x1_0000, qs);
    lemma_mul_is_commutative(0x1_0000, qs);
    lemma_mul_is_associative(v, qs, 0x1_0000);
    assert((level * p) * 0x1_0000 <= x * (m * qs));
    lemma_mul_inequality((level * p) * 0x1_0000, x * (m * qs), d);
    lemma_mul_is_associative(x, m * qs, d);
    lemma_mul_is_commutative(x, (m * qs) * d);
    lemma_mul_inequality((m * qs) * d, 0x1_0002_0000, x);
    lemma_mul_is_associative(level * p, 0x1_0000, d);
    lemma_mul_is_commutative(0x1_0000, d);
    lemma_mul_is_associative(level * p, d, 0x1_0000);
    lemma_mul_is_associative(level, p, d);
    lemma_mul_is_commutative(p, d);
    lemma_mul_is_associative(level, d, p);
}

/// A level never dequantizes to much more than the magnitude it came from:
/// `level * step <= 2 * x * 2^ls / 2^e`, with `x` the weighted magnitude and
/// `e` the weight's fractional bits.
proof fn lemma_scaled_level(k: Kernel, t: QuantTable, i: int, x: int, ls: nat, e: nat)
    requires
        row_wf(t, i),
        0 <= i < 2,
        0 <= x,
        ls <= 4,
        e == 0 || e == 5,
    ensures
        0 <= scaled_level(k, t, i, x, (16 - ls + e) as nat),
        (scaled_level(k, t, i, x, (16 - ls + e) as nat) * t.dequant[i]) * pow2(e) <= 2 * (x * pow2(ls)),
{
    let n = (16 - ls + e) as nat;
    let p = pow2(n) as int;
    let l = pow2(ls) as int;
    let ee = pow2(e) as int;
    let d = t.dequant[i] as int;
    let level = scaled_level(k, t, i, x, n);
    lemma_pow2_pos(n);
    lemma_pow2_pos(ls);
    if k.dead_zone {
        lemma_b_product(x, t.quant[i] as int, t.quant_shift[i] as int, d, p);
    } else {
        lemma_fp_product(x, t.quant_fp[i] as int, d, p);
    }
    // (level * d) * p <= x * 0x10002, and p * l == 0x10000 * ee
    lemma2_to64();
    lemma_pow2_adds(n, ls);
    lemma_pow2_adds(16, e);
    assert(p * l == 0x1_0000 * ee);
    let ld = level * d;
    lemma_mul_nonnegative(level, d);
    lemma_mul_inequality(ld * p, x * 0x1_0002, l);
    lemma_mul_is_associative(ld, p, l);
    lemma_mul_is_associative(ld, 0x1_0000, ee);
    lemma_mul_is_commutative(0x1_0000, ee);
    lemma_mul_is_associative(ld, ee, 0x1_0000);
    lemma_mul_is_associative(x, 0x1_0002, l);
    lemma_mul_is_commutative(0x1_0002, l);
    lemma_mul_is_associative(x, l, 0x1_0002);
    lemma_mul_nonnegative(x, l);
    assert((ld * ee) * 0x1_0000 <= (x * l) * 0x1_0002);
}

/// A scan visits a raster position.
pub open spec fn visits(scan: Seq<u16>, rc: int) -> bool {
    exists|j: int| 0 <= j < scan.len() && (#[trigger] scan[j]) as int == rc
}

/// Levels and their reconstructions fit 32 bits, and reconstructions stay
/// close to the magnitude they came from.
pub proof fn lemma_level_fits(k: Kernel, t: QuantTable, ls: nat, w: Option<int>, rc: int, c: int)
    requires
        table_wf(t),
        ls <= 4,
        -COEFF_LIMIT <= c <= COEFF_LIMIT,
        w matches Some(w) ==> 0 <= w <= 255,
    ensures
        0 <= rounded_magnitude(k, t, ls, rc, c) <= 0x41_0001,
        0 <= level_of(k, t, ls, w, rc, c) <= 0x4100_0000,
        w is None ==> reconstructed(level_of(k, t, ls, w, rc, c), weighted_step(t.dequant@, rc, 32), ls)
            <= 2 * rounded_magnitude(k, t, ls, rc, c),
        forall|iw: int|
            0 <= iw <= 255 && w is Some ==> 0 <= level_of(k, t, ls, w, rc, c) * (
            #[trigger] weighted_step(t.dequant@, rc, iw)) && 1024 * (reconstructed(
                level_of(k, t, ls, w, rc, c),
                weighted_step(t.dequant@, rc, iw),
                ls,
            )) <= 2 * ((rounded_magnitude(k, t, ls, rc, c) * w->0) * (iw + 16)),
{
    let i = entry_of(rc);
    let d = t.dequant[i] as int;
    lemma2_to64();
    let l = pow2(ls) as int;
    assert(1 <= l <= 16) by {
        assert(ls == 0 || ls == 1 || ls == 2 || ls == 3 || ls == 4);
    }
    let s = rounded_magnitude(k, t, ls, rc, c);
    assert(0 <= s <= 0x41_0001) by {
        let offset = if k.dead_zone {
            t.round[i] as int
        } else {
            t.round_fp[i] as int
        };
        lemma_round_shift_range(offset, ls);
    }
    let level = level_of(k, t, ls, w, rc, c);
    match w {
        None => {
            lemma_scaled_level(k, t, i, s, ls, 0);
            assert(level * d <= 2 * (s * l));
            lemma_mul_inequality(s, 0x41_0001, l);
            lemma_mul_ordering_level(level, d);
            assert(weighted_step(t.dequant@, rc, 32) == d);
            lemma_mul_is_associative(2, s, l);
            lemma_div_by_scale(level * d, 2 * s, l);
        },
        Some(w) => {
            let x = s * w;
            lemma_mul_nonnegative(s, w);
            lemma_mul_inequality(s, 0x41_0001, w);
            lemma_scaled_level(k, t, i, x, ls, 5);
            assert((level * d) * 32 <= 2 * (x * l));
            lemma_mul_inequality(x, 0x4100_0000, l);
            lemma_mul_ordering_level(level, d);
            assert forall|iw: int| 0 <= iw <= 255 implies 0 <= level * (#[trigger] weighted_step(
                t.dequant@,
                rc,
                iw,
            )) && 1024 * (reconstructed(level, weighted_step(t.dequant@, rc, iw), ls)) <= 2 * (x * (iw
                + 16)) by {
                let step = weighted_step(t.dequant@, rc, iw);
                lemma_mul_nonnegative(d, iw);
                lemma_mul_nonnegative(level, step);
                lemma_weighted_recon(level, d, iw, step, x, l);
            }
        },
    }
}

proof fn lemma_mul_ordering_level(level: int, d: int)
    requires
        0 <= level,
        1 <= d,
    ensures
        level <= level * d,
{
    lemma_mul_is_commutative(level, d);
    lemma_mul_inequality(1, d, level);
}

proof fn lemma_div_by_scale(a: int, b: int, l: int)
    requires
        a <= b * l,
        l >= 1,
    ensures
        a / l <= b,
{
    lemma_fundamental_div_mod(a, l);
    if a / l > b {
        lemma_mul_inequality(b + 1, a / l, l);
        lemma_mul_is_commutative(l, a / l);
        lemma_mul_is_distributive_add_other_way(l, b, 1);
    }
}

proof fn lemma_weighted_recon(level: int, d: int, iw: int, step: int, x: int, l: int)
    requires
        0 <= level,
        1 <= d,
        0 <= iw,
        step == (d * iw + 16) / 32,
        0 <= x,
        1 <= l,
        level <= level * d,
        (level * d) * 32 <= 2 * (x * l),
    ensures
        1024 * ((level * step) / l) <= 2 * (x * (iw + 16)),
{
    let ld = level * d;
    // level * step * 32 <= level * (d * iw + 16) <= ld * (iw + 16)
    assert(step * 32 <= d * iw + 16);
    lemma_mul_inequality(step * 32, d * iw + 16, level);
    lemma_mul_is_commutative(step * 32, level);
    lemma_mul_is_associative(level, step, 32);
    lemma_mul_is_distributive_add(level, d * iw, 16);
    lemma_mul_is_commutative(d * iw + 16, level);
    lemma_mul_is_associative(level, d, iw);
    lemma_mul_is_distributive_add(ld, iw, 16);
    assert((level * step) * 32 <= ld * (iw + 16));
    // ld * 32 * (iw + 16) <= 2 * (x * l) * (iw + 16)
    lemma_mul_inequality(ld * 32, 2 * (x * l), iw + 16);
    lemma_mul_is_associative(ld, 32, iw + 16);
    lemma_mul_is_commutative(32, iw + 16);
    lemma_mul_is_associative(ld, iw + 16, 32);
    lemma_mul_is_associative(2, x * l, iw + 16);
    lemma_mul_is_associative(x, l, iw + 16);
    lemma_mul_is_commutative(l, iw + 16);
    lemma_mul_is_associative(x, iw + 16, l);
    let y = x * (iw + 16);
    assert((level * step) * 1024 <= 2 * (y * l));
    let r = (level * step) / l;
    lemma_fundamental_div_mod(level * step, l);
    lemma_mul_is_commutative(l, r);
    assert((r * l) * 1024 <= 2 * (y * l));
    lemma_mul_is_associative(1024, r, l);
    lemma_mul_is_associative(2, y, l);
    if 1024 * r > 2 * y {
        lemma_mul_inequality(2 * y + 1, 1024 * r, l);
        lemma_mul_is_distributive_add_other_way(l, 2 * y, 1);
    }
}

/// The level magnitude of one coefficient.
fn kernel_level(k: Kernel, t: &QuantTable, ls: u32, w: Option<u8>, rc: usize, c: i32) -> (r: i32)
    requires
        table_wf(*t),
        ls <= 4,
        -COEFF_LIMIT <= c <= COEFF_LIMIT,
    ensures
        r == level_of(
            k,
            *t,
            ls as nat,
            match w {
                None => None,
                Some(w) => Some(w as int),
            },
            rc as int,
            c as int,
        ),
{
    let ghost wg: Option<int> = match w {
        None => None,
        Some(w) => Some(w as int),
    };
    proof {
        lemma_level_fits(k, *t, ls as nat, wg, rc as int, c as int);
        lemma2_to64();
        lemma_round_shift_exec(ls as nat);
    }
    let i: usize = if rc == 0 {
        0
    } else {
        1
    };
    let a: i64 = abs_i32(c) as i64;
    let half: i64 = pow2_i64(ls) / 2;
    let offset: i64 = if k.dead_zone {
        t.round[i] as i64
    } else {
        t.round_fp[i] as i64
    };
    let sum: i64 = a + shr_i64(offset + half, ls);
    let s: i64 = if k.saturate && sum > 0x7fff {
        0x7fff
    } else {
        sum
    };
    assert(s == rounded_magnitude(k, *t, ls as nat, rc as int, c as int));
    let (x, n): (i64, u32) = match w {
        None => (s, 16 - ls),
        Some(w) => {
            proof {
                lemma_mul_upper_bound(s as int, 0x41_0001, w as int, 255);
                lemma_mul_nonnegative(s as int, w as int);
            }
            (s * (w as i64), 21 - ls)
        },
    };
    let large: bool = if k.dead_zone {
        let zbin: i64 = shr_i64(t.zbin[i] as i64 + half, ls);
        match w {
            None => a >= zbin,
            Some(w) => {
                proof {
                    lemma_mul_upper_bound(a as int, 0x40_0000, w as int, 255);
                    lemma_mul_nonnegative(a as int, w as int);
                    lemma_round_shift_range(t.zbin[i as int] as int, ls as nat);
                }
                a * (w as i64) >= zbin * 32
            },
        }
    } else {
        match w {
            None => {
                proof {
                    assert(pow2(1 + ls as nat) <= 32) by {
                        assert(ls == 0 || ls == 1 || ls == 2 || ls == 3 || ls == 4);
                    }
                    lemma_mul_upper_bound(a as int, 0x40_0000, pow2(1 + ls as nat) as int, 32);
                    lemma_mul_nonnegative(a as int, pow2(1 + ls as nat) as int);
                }
                a * pow2_i64(1 + ls) >= t.dequant[i] as i64
            },
            Some(w) => {
                proof {
                    lemma_mul_upper_bound(a as int, 0x40_0000, w as int, 255);
                    lemma_mul_nonnegative(a as int, w as int);
                    assert(pow2((4 - ls) as nat) <= 16) by {
                        assert(ls == 0 || ls == 1 || ls == 2 || ls == 3 || ls == 4);
                    }
                    lemma_mul_upper_bound(t.dequant[i as int] as int, 0x8000, pow2((4 - ls) as nat) as int, 16);
                    lemma_mul_nonnegative(t.dequant[i as int] as int, pow2((4 - ls) as nat) as int);
                }
                a * (w as i64) >= (t.dequant[i] as i64) * pow2_i64(4 - ls)
            },
        }
    };
    if !large {
        return 0;
    }
    let level: i64 = if k.dead_zone {
        proof {
            lemma_abs_product(x as int, t.quant[i as int] as int, 0x4100_0000, 0x1_0000);
        }
        let prod: i64 = x * (t.quant[i] as i64);
        let v: i64 = shr_i64(prod, 16) + x;
        proof {
            lemma_b_product(x as int, t.quant[i as int] as int, t.quant_shift[i as int] as int, t.dequant[i as int] as int, 1);
            lemma_abs_product(v as int, t.quant_shift[i as int] as int, 0x8200_0000, 0x1_0000);
        }
        shr_i64(v * (t.quant_shift[i] as i64), n)
    } else {
        proof {
            lemma_qfp_bound(t.quant_fp[i as int] as int, t.dequant[i as int] as int);
            lemma_abs_product(x as int, t.quant_fp[i as int] as int, 0x4100_0000, 0x1_0000);
        }
        shr_i64(x * (t.quant_fp[i] as i64), n)
    };
    level as i32
}

proof fn lemma_qfp_bound(q: int, d: int)
    requires
        0 <= q,
        1 <= d,
        q * d <= 0x1_0000,
    ensures
        q <= 0x1_0000,
{
    lemma_mul_ordering_level(q, d);
}

proof fn lemma_abs_product(x: int, y: int, bx: int, by: int)
    requires
        0 <= x <= bx,
        -by <= y <= by,
    ensures
        -(bx * by) <= x * y <= bx * by,
{
    lemma_mul_nonnegative(bx, by);
    if y >= 0 {
        lemma_mul_upper_bound(x, bx, y, by);
        lemma_mul_nonnegative(x, y);
    } else {
        lemma_mul_upper_bound(x, bx, -y, by);
        lemma_mul_nonnegative(x, -y);
        lemma_mul_unary_negation(x, y);
    }
}

proof fn lemma_round_shift_range(x: int, ls: nat)
    requires
        0 <= x <= 0x1_0000,
        ls <= 4,
    ensures
        0 <= round_shift(x, ls) <= 0x1_0001,
{
    lemma2_to64();
    if ls == 0 {
    } else if ls == 1 {
        assert(round_shift(x, ls) == (x + 1) / 2);
    } else if ls == 2 {
        assert(round_shift(x, ls) == (x + 2) / 4);
    } else if ls == 3 {
        assert(round_shift(x, ls) == (x + 4) / 8);
    } else {
        assert(round_shift(x, ls) == (x + 8) / 16);
    }
}

proof fn lemma_round_shift_exec(ls: nat)
    requires
        ls <= 4,
    ensures
        forall|x: int| #[trigger] round_shift(x, ls) == shr_int(x + pow2(ls) as int / 2, ls),
{
    lemma2_to64();
    if ls > 0 {
        lemma_pow2_unfold(ls);
    }
}

/// View of an optional matrix slice.
pub open spec fn matrix_view(m: Option<&[u8]>) -> Option<Seq<u8>> {
    match m {
        None => None,
        Some(m) => Some(m@),
    }
}

/// One past the last scan position that holds a nonzero level.
pub fn eob_by_walk(scan: &[u16], qcoeff: &[i32]) -> (eob: u16)
    requires
        scan@.len() < 0x1_0000,
        forall|i: int| 0 <= i < scan@.len() ==> (#[trigger] scan@[i]) < qcoeff@.len(),
    ensures
        eob == eob_of(scan@, qcoeff@),
{
    let mut n: usize = scan.len();
    assert(scan@.subrange(0, n as int) =~= scan@);
    while n > 0
        invariant
            n <= scan@.len() < 0x1_0000,
            forall|i: int| 0 <= i < scan@.len() ==> (#[trigger] scan@[i]) < qcoeff@.len(),
            eob_of(scan@, qcoeff@) == eob_of(scan@.subrange(0, n as int), qcoeff@),
        decreases n,
    {
        assert(scan@.subrange(0, n as int).drop_last() =~= scan@.subrange(0, n - 1));
        assert(scan@.subrange(0, n as int).last() == scan@[n - 1]);
        if qcoeff[scan[n - 1] as usize] != 0 {
            return n as u16;
        }
        n = n - 1;
    }
    0
}

/// Quantizes one coefficient into the two buffers.
fn quantize_one(
    k: Kernel,
    coeffs: &[i32],
    rc: usize,
    t: &QuantTable,
    ls: u32,
    wt: Option<&[u8]>,
    iwt: Option<&[u8]>,
    qcoeff: &mut [i32],
    dqcoeff: &mut [i32],
)
    requires
        table_wf(*t),
        ls <= 4,
        rc < coeffs@.len(),
        coeffs@.len() <= old(qcoeff)@.len(),
        coeffs@.len() <= old(dqcoeff)@.len(),
        -COEFF_LIMIT <= coeffs@[rc as int] <= COEFF_LIMIT,
        wt is Some <==> iwt is Some,
        wt matches Some(m) ==> rc < m@.len(),
        iwt matches Some(m) ==> rc < m@.len(),
    ensures
        final(qcoeff)@ == old(qcoeff)@.update(rc as int, final(qcoeff)@[rc as int]),
        final(dqcoeff)@ == old(dqcoeff)@.update(rc as int, final(dqcoeff)@[rc as int]),
        final(qcoeff)@[rc as int] == with_sign(
            level_of(
                k,
                *t,
                ls as nat,
                weight_at(matrix_view(wt), rc as int),
                rc as int,
                coeffs@[rc as int] as int,
            ),
            coeffs@[rc as int] as int,
        ),
        final(dqcoeff)@[rc as int] == with_sign(
            reconstructed(
                abs_int(final(qcoeff)@[rc as int] as int),
                weighted_step(t.dequant@, rc as int, inverse_weight_at(matrix_view(iwt), rc as int)),
                ls as nat,
            ),
            coeffs@[rc as int] as int,
        ),
{
    let c: i32 = coeffs[rc];
    let w: Option<u8> = match wt {
        None => None,
        Some(m) => Some(m[rc]),
    };
    let level: i32 = kernel_level(k, t, ls, w, rc, c);
    let step: i32 = dqv_qm(&t.dequant, rc, iwt);
    proof {
        let wg = weight_at(matrix_view(wt), rc as int);
        let iw = inverse_weight_at(matrix_view(iwt), rc as int);
        lemma_level_fits(k, *t, ls as nat, wg, rc as int, c as int);
        lemma_mul_nonnegative(level as int, step as int);
        lemma_pow2_pos(ls as nat);
        lemma_div_pos_is_pos(level * step, pow2(ls as nat) as int);
        lemma_mul_upper_bound(level as int, 0x4100_0000, step as int, 0x10_0000);
        if wt is Some {
            let s = rounded_magnitude(k, *t, ls as nat, rc as int, c as int);
            let wv = wg->0;
            assert(weighted_step(t.dequant@, rc as int, iw) == step);
            lemma_mul_upper_bound(s, 0x41_0001, wv, 255);
            lemma_mul_nonnegative(s, wv);
            lemma_mul_upper_bound(s * wv, 0x4100_0000, iw + 16, 271);
        }
    }
    let prod: i64 = (level as i64) * (step as i64);
    let abs_dq: i64 = shr_i64(prod, ls);
    if c < 0 {
        qcoeff[rc] = -level;
        dqcoeff[rc] = -(abs_dq as i32);
    } else {
        qcoeff[rc] = level;
        dqcoeff[rc] = abs_dq as i32;
    }
    proof {
        assert(abs_int(qcoeff@[rc as int] as int) == level);
        assert(old(qcoeff)@.update(rc as int, qcoeff@[rc as int]) =~= qcoeff@);
        assert(old(dqcoeff)@.update(rc as int, dqcoeff@[rc as int]) =~= dqcoeff@);
    }
}

/// Clears the first `n` entries.
fn clear_prefix(buf: &mut [i32], n: usize)
    requires
        n <= old(buf)@.len(),
    ensures
        final(buf)@.len() == old(buf)@.len(),
        forall|i: int| 0 <= i < n ==> #[trigger] final(buf)@[i] == 0,
        forall|i: int| n <= i < old(buf)@.len() ==> #[trigger] final(buf)@[i] == old(buf)@[i],
{
    let mut i: usize = 0;
    while i < n
        invariant
            i <= n <= buf@.len(),
            buf@.len() == old(buf)@.len(),
            forall|j: int| 0 <= j < i ==> #[trigger] buf@[j] == 0,
            forall|j: int| i <= j < buf@.len() ==> #[trigger] buf@[j] == old(buf)@[j],
        decreases n - i,
    {
        buf[i] = 0;
        i = i + 1;
    }
}

/// Runs a kernel over the positions a scan visits.
pub fn quantize_scan(
    k: Kernel,
    coeffs: &[i32],
    scan: &[u16],
    t: &QuantTable,
    log_scale: i32,
    wt: Option<&[u8]>,
    iwt: Option<&[u8]>,
    qcoeff: &mut [i32],
    dqcoeff: &mut [i32],
) -> (eob: u16)
    requires
        quantizer_inputs(coeffs@, scan@, *t, log_scale, old(qcoeff)@.len() as int, old(dqcoeff)@.len() as int),
        wt is Some <==> iwt is Some,
        wt matches Some(m) ==> coeffs@.len() <= m@.len(),
        iwt matches Some(m) ==> coeffs@.len() <= m@.len(),
    ensures
        quantized_block(
            k,
            coeffs@,
            |rc: int| visits(scan@, rc),
            *t,
            log_scale as nat,
            matrix_view(wt),
            matrix_view(iwt),
            old(qcoeff)@,
            old(dqcoeff)@,
            final(qcoeff)@,
            final(dqcoeff)@,
        ),
        eob == eob_of(scan@, final(qcoeff)@),
{
    let n: usize = coeffs.len();
    clear_prefix(qcoeff, n);
    clear_prefix(dqcoeff, n);
    let ls: u32 = log_scale as u32;
    let mut i: usize = 0;
    proof {
        lemma_zero_recon(t.dequant@, ls as nat);
    }
    while i < scan.len()
        invariant
            i <= scan@.len(),
            n == coeffs@.len(),
            ls == log_scale,
            quantizer_inputs(coeffs@, scan@, *t, log_scale, qcoeff@.len() as int, dqcoeff@.len() as int),
            wt is Some <==> iwt is Some,
            wt matches Some(m) ==> coeffs@.len() <= m@.len(),
            iwt matches Some(m) ==> coeffs@.len() <= m@.len(),
            quantized_block(
                k,
                coeffs@,
                |rc: int| visits(scan@.subrange(0, i as int), rc),
                *t,
                log_scale as nat,
                matrix_view(wt),
                matrix_view(iwt),
                old(qcoeff)@,
                old(dqcoeff)@,
                qcoeff@,
                dqcoeff@,
            ),
        decreases scan.len() - i,
    {
        let rc: usize = scan[i] as usize;
        let ghost q1 = qcoeff@;
        let ghost d1 = dqcoeff@;
        quantize_one(k, coeffs, rc, t, ls, wt, iwt, qcoeff, dqcoeff);
        proof {
            let before = scan@.subrange(0, i as int);
            let after = scan@.subrange(0, i + 1);
            assert(after[i as int] == rc);
            assert forall|p: int| visits(after, p) <==> (visits(before, p) || p == rc) by {
                if visits(before, p) {
                    let j = choose|j: int| 0 <= j < before.len() && (#[trigger] before[j]) as int == p;
                    assert(after[j] == before[j]);
                }
                if visits(after, p) {
                    let j = choose|j: int| 0 <= j < after.len() && (#[trigger] after[j]) as int == p;
                    if j < i {
                        assert(before[j] == after[j]);
                    }
                }
            }
        }
        i = i + 1;
    }
    assert(scan@.subrange(0, scan@.len() as int) =~= scan@);
    eob_by_walk(scan, qcoeff)
}

proof fn lemma_zero_recon(dequant: Seq<i32>, ls: nat)
    ensures
        forall|step: int| #[trigger] reconstructed(0, step, ls) == 0,
{
    lemma_pow2_pos(ls);
    assert forall|step: int| #[trigger] reconstructed(0, step, ls) == 0 by {
        lemma_mul_basics(step);
        lemma_div_basics(pow2(ls) as int);
    }
}

/// Runs a kernel over the whole block in raster order.
pub fn quantize_raster(
    k: Kernel,
    coeffs: &[i32],
    scan: &[u16],
    t: &QuantTable,
    log_scale: i32,
    qcoeff: &mut [i32],
    dqcoeff: &mut [i32],
) -> (eob: u16)
    requires
        quantizer_inputs(coeffs@, scan@, *t, log_scale, old(qcoeff)@.len() as int, old(dqcoeff)@.len() as int),
    ensures
        quantized_block(
            k,
            coeffs@,
            |rc: int| true,
            *t,
            log_scale as nat,
            None,
            None,
            old(qcoeff)@,
            old(dqcoeff)@,
            final(qcoeff)@,
            final(dqcoeff)@,
        ),
        eob == eob_of(scan@, final(qcoeff)@),
{
    let n: usize = coeffs.len();
    let ls: u32 = log_scale as u32;
    clear_prefix(qcoeff, n);
    clear_prefix(dqcoeff, n);
    proof {
        lemma_zero_recon(t.dequant@, ls as nat);
    }
    let mut i: usize = 0;
    while i < n
        invariant
            i <= n,
            n == coeffs@.len(),
            ls == log_scale,
            quantizer_inputs(coeffs@, scan@, *t, log_scale, qcoeff@.len() as int, dqcoeff@.len() as int),
            quantized_block(
                k,
                coeffs@,
                |rc: int| rc < i,
                *t,
                log_scale as nat,
                None,
                None,
                old(qcoeff)@,
                old(dqcoeff)@,
                qcoeff@,
                dqcoeff@,
            ),
        decreases n - i,
    {
        quantize_one(k, coeffs, i, t, ls, None, None, qcoeff, dqcoeff);
        i = i + 1;
    }
    eob_by_walk(scan, qcoeff)
}

/// The dead-zone quantizer at 8 bits.
pub fn quantize_b(
    coeffs: &[i32],
    scan: &[u16],
    t: &QuantTable,
    log_scale: i32,
    qcoeff: &mut [i32],
    dqcoeff: &mut [i32],
) -> (eob: u16)
    requires
        quantizer_inputs(coeffs@, scan@, *t, log_scale, old(qcoeff)@.len() as int, old(dqcoeff)@.len() as int),
    ensures
        quantized_block(
            (Kernel { dead_zone: true, saturate: true }),
            coeffs@,
            |rc: int| true,
            *t,
            log_scale as nat,
            None,
            None,
            old(qcoeff)@,
            old(dqcoeff)@,
            final(qcoeff)@,
            final(dqcoeff)@,
        ),
        eob == eob_of(scan@, final(qcoeff)@),
{
    quantize_raster(Kernel { dead_zone: true, saturate: true }, coeffs, scan, t, log_scale, qcoeff, dqcoeff)
}

/// The fixed-point quantizer at 8 bits.
pub fn quantize_fp(
    coeffs: &[i32],
    scan: &[u16],
    t: &QuantTable,
    log_scale: i32,
    qcoeff: &mut [i32],
    dqcoeff: &mut [i32],
) -> (eob: u16)
    requires
        quantizer_inputs(coeffs@, scan@, *t, log_scale, old(qcoeff)@.len() as int, old(dqcoeff)@.len() as int),
    ensures
        quantized_block(
            (Kernel { dead_zone: false, saturate: true }),
            coeffs@,
            |rc: int| true,
            *t,
            log_scale as nat,
            None,
            None,
            old(qcoeff)@,
            old(dqcoeff)@,
            final(qcoeff)@,
            final(dqcoeff)@,
        ),
        eob == eob_of(scan@, final(qcoeff)@),
{
    quantize_raster(Kernel { dead_zone: false, saturate: true }, coeffs, scan, t, log_scale, qcoeff, dqcoeff)
}

/// The fixed-point quantizer above 8 bits: no saturation.
pub fn quantize_fp_hbd(
    coeffs: &[i32],
    scan: &[u16],
    t: &QuantTable,
    log_scale: i32,
    qcoeff: &mut [i32],
    dqcoeff: &mut [i32],
) -> (eob: u16)
    requires
        quantizer_inputs(coeffs@, scan@, *t, log_scale, old(qcoeff)@.len() as int, old(dqcoeff)@.len() as int),
    ensures
        quantized_block(
            (Kernel { dead_zone: false, saturate: false }),
            coeffs@,
            |rc: int| visits(scan@, rc),
            *t,
            log_scale as nat,
            None,
            None,
            old(qcoeff)@,
            old(dqcoeff)@,
            final(qcoeff)@,
            final(dqcoeff)@,
        ),
        eob == eob_of(scan@, final(qcoeff)@),
{
    quantize_scan(
        Kernel { dead_zone: false, saturate: false },
        coeffs,
        scan,
        t,
        log_scale,
        None,
        None,
        qcoeff,
        dqcoeff,
    )
}

/// The dead-zone quantizer above 8 bits: no saturation.
pub fn quantize_b_hbd(
    coeffs: &[i32],
    scan: &[u16],
    t: &QuantTable,
    log_scale: i32,
    qcoeff: &mut [i32],
    dqcoeff: &mut [i32],
) -> (eob: u16)
    requires
        quantizer_inputs(coeffs@, scan@, *t, log_scale, old(qcoeff)@.len() as int, old(dqcoeff)@.len() as int),
    ensures
        quantized_block(
            (Kernel { dead_zone: true, saturate: false }),
            coeffs@,
            |rc: int| visits(scan@, rc),
            *t,
            log_scale as nat,
            None,
            None,
            old(qcoeff)@,
            old(dqcoeff)@,
            final(qcoeff)@,
            final(dqcoeff)@,
        ),
        eob == eob_of(scan@, final(qcoeff)@),
{
    quantize_scan(
        Kernel { dead_zone: true, saturate: false },
        coeffs,
        scan,
        t,
        log_scale,
        None,
        None,
        qcoeff,
        dqcoeff,
    )
}

} // verus!
