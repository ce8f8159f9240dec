//! Quantization matrices: the level maps, where each transform size's matrix
//! lies in the flat weight tables, and the quantizers that apply them.

use vstd::arithmetic::div_mod::{lemma_div_by_multiple, lemma_div_is_ordered};
use vstd::arithmetic::mul::{lemma_mul_inequality, lemma_mul_nonnegative, lemma_mul_upper_bound};
use vstd::prelude::*;

use crate::arith::{abs_int, clamp_i32, clamp_int, div_trunc};
use crate::quant::{
    entry_of, eob_of, inverse_weight_at, matrix_view, quantize_scan, quantized_block, quantizer_inputs,
    visits, weighted_step, Kernel, QuantTable,
};

verus! {

/// Fractional bits of a matrix weight: unity is 32.
pub const AOM_QM_BITS: i32 = 5;

/// Number of matrix levels; the last one is the identity.
pub const NUM_QM_LEVELS: usize = 16;

/// Entries of one level and plane class in the flat tables.
pub const QM_TOTAL_SIZE: usize = 3344;

/// The transform size whose matrix a size uses: 64-sample dimensions fold
/// to 32.
pub const ADJUSTED_TX_SIZE: [usize; 19] = [0, 1, 2, 3, 3, 5, 6, 7, 8, 9, 10, 3, 3, 13, 14, 15, 16, 9, 10];

/// Where each transform size's matrix starts in the flat table.
pub const QM_OFFSET: [usize; 19] = [
    0, 16, 80, 336, 336, 1360, 1392, 1424, 1552, 1680, 2192, 336, 336, 2704, 2768, 2832, 3088, 1680, 2192,
];

/// Entries of each transform size's matrix.
pub const QM_SIZE_2D: [usize; 19] = [
    16, 64, 256, 1024, 1024, 32, 32, 128, 128, 512, 512, 1024, 1024, 64, 64, 256, 256, 512, 512,
];

/// Total entries of the matrices of the sizes before `tx` that own one.
pub open spec fn qm_entries_before(tx: nat) -> nat
    decreases tx,
{
    if tx == 0 {
        0
    } else {
        let prev = (tx - 1) as nat;
        qm_entries_before(prev) + if ADJUSTED_TX_SIZE[prev as int] == prev {
            QM_SIZE_2D[prev as int] as nat
        } else {
            0
        }
    }
}

/// The matrices of the sizes that own one lie back to back, in size order,
/// and fill a level exactly; every other size shares the matrix of the size
/// it folds to.
pub proof fn qm_layout_is_packed(tx: int)
    requires
        0 <= tx < 19,
    ensures
        QM_OFFSET[tx] == qm_entries_before(ADJUSTED_TX_SIZE[tx] as nat),
        QM_SIZE_2D[tx] == QM_SIZE_2D[ADJUSTED_TX_SIZE[tx] as int],
        ADJUSTED_TX_SIZE[ADJUSTED_TX_SIZE[tx] as int] == ADJUSTED_TX_SIZE[tx],
        QM_OFFSET[tx] + QM_SIZE_2D[tx] <= QM_TOTAL_SIZE,
        qm_entries_before(19) == QM_TOTAL_SIZE,
{
    assert(qm_entries_before(0) == 0);
    assert(qm_entries_before(1) == 16);
    assert(qm_entries_before(2) == 80);
    assert(qm_entries_before(3) == 336);
    assert(qm_entries_before(4) == 1360);
    assert(qm_entries_before(5) == 1360);
    assert(qm_entries_before(6) == 1392);
    assert(qm_entries_before(7) == 1424);
    assert(qm_entries_before(8) == 1552);
    assert(qm_entries_before(9) == 1680);
    assert(qm_entries_before(10) == 2192);
    assert(qm_entries_before(11) == 2704);
    assert(qm_entries_before(12) == 2704);
    assert(qm_entries_before(13) == 2704);
    assert(qm_entries_before(14) == 2768);
    assert(qm_entries_before(15) == 2832);
    assert(qm_entries_before(16) == 3088);
    assert(qm_entries_before(17) == 3344);
    assert(qm_entries_before(18) == 3344);
    assert(qm_entries_before(19) == 3344);
}

/// Linear map of a quantizer index onto the levels `first..=last`.
pub fn aom_get_qmlevel(qindex: i32, first: i32, last: i32) -> (r: i32)
    requires
        first <= last,
        last < i32::MAX,
        last + 1 - first <= i32::MAX,
        i32::MIN <= qindex * (last + 1 - first) <= i32::MAX,
        i32::MIN <= first + div_trunc(qindex * (last + 1 - first), 256) <= i32::MAX,
    ensures
        r == clamp_int(
            first + div_trunc(qindex * (last + 1 - first), 256),
            first as int,
            last as int,
        ),
{
    clamp_i32(first + (qindex * (last + 1 - first)) / 256, first, last)
}

/// Ten to the power twenty-two, the scale of the still-picture level curve.
pub const STILL_LEVEL_ONE: i128 = 10_000_000_000_000_000_000_000;

/// Coefficients of the still-picture level curve times the scale, from the
/// seventh power of the quantizer index down to the constant term.
pub const STILL_LEVEL_COEFFS: [i128; 8] = [
    110_464_272,
    -97_859_763_400,
    34_626_176_300_000,
    -6_267_598_770_000_000,
    610_876_647_000_000_000,
    -30_494_275_900_000_000_000,
    479_930_113_000_000_000_000,
    98_692_237_300_000_000_000_000,
];

/// The still-picture level curve at `qindex`, times the scale: a polynomial
/// of degree seven tuned for single pictures.
pub open spec fn still_level_curve(qindex: int) -> int {
    ((((((STILL_LEVEL_COEFFS[0] * qindex + STILL_LEVEL_COEFFS[1]) * qindex + STILL_LEVEL_COEFFS[2])
        * qindex + STILL_LEVEL_COEFFS[3]) * qindex + STILL_LEVEL_COEFFS[4]) * qindex
        + STILL_LEVEL_COEFFS[5]) * qindex + STILL_LEVEL_COEFFS[6]) * qindex
        + STILL_LEVEL_COEFFS[7]
}

/// The integer nearest to `n / 10^22`, halves rounding away from zero.
pub open spec fn still_level_rounded(n: int) -> int {
    if n >= 0 {
        (2 * n + STILL_LEVEL_ONE) / (2 * STILL_LEVEL_ONE)
    } else {
        -((2 * -n + STILL_LEVEL_ONE) / (2 * STILL_LEVEL_ONE))
    }
}

/// From this quantizer index on, either way, the level curve has left the
/// levels behind.
const STILL_LEVEL_REACH: i32 = 4096;

/// One Horner step, with room to spare.
fn still_level_step(v: i128, qindex: i32, k: usize) -> (r: i128)
    requires
        -STILL_LEVEL_REACH < qindex < STILL_LEVEL_REACH,
        k < 8,
        -10_000_000_000_000_000_000_000_000_000_000_000 <= v <= 10_000_000_000_000_000_000_000_000_000_000_000,
    ensures
        r == v * qindex + STILL_LEVEL_COEFFS[k as int],
        abs_int(r as int) <= 4096 * abs_int(v as int) + abs_int(STILL_LEVEL_COEFFS[k as int] as int),
{
    let q: i128 = qindex as i128;
    proof {
        assert(abs_int(v * q) <= 4096 * abs_int(v as int)) by (nonlinear_arith)
            requires
                -4096 < q < 4096,
        ;
        assert(k == 0 || k == 1 || k == 2 || k == 3 || k == 4 || k == 5 || k == 6 || k == 7);
    }
    v * q + STILL_LEVEL_COEFFS[k]
}

proof fn lemma_horner_grows(v: int, q: int, a: int)
    requires
        0 <= a <= abs_int(v),
        STILL_LEVEL_REACH <= abs_int(q),
    ensures
        (v > 0) == (q > 0) && v != 0 ==> v * q >= 4096 * a,
        (v > 0) != (q > 0) && v != 0 ==> v * q <= -4096 * a,
{
    lemma_mul_inequality(a, abs_int(v), abs_int(q));
    lemma_mul_inequality(4096, abs_int(q), a);
    vstd::arithmetic::mul::lemma_mul_is_commutative(a, abs_int(q));
    assert(abs_int(v) * abs_int(q) == v * q || abs_int(v) * abs_int(q) == -(v * q)) by (nonlinear_arith);
    assert((v > 0) == (q > 0) && v != 0 ==> v * q >= 0) by (nonlinear_arith);
    assert((v > 0) != (q > 0) && v != 0 ==> v * q <= 0) by (nonlinear_arith);
}

/// Far from zero the level curve lies beyond every level.
proof fn lemma_still_level_far(q: int)
    requires
        STILL_LEVEL_REACH <= abs_int(q),
    ensures
        q > 0 ==> still_level_rounded(still_level_curve(q)) > i32::MAX,
        q < 0 ==> still_level_rounded(still_level_curve(q)) < i32::MIN,
{
    let c = STILL_LEVEL_COEFFS;
    lemma_horner_grows(c[0] as int, q, 110_464_272);
    let v1 = c[0] * q + c[1];
    lemma_horner_grows(v1, q, 300_000_000_000);
    let v2 = v1 * q + c[2];
    lemma_horner_grows(v2, q, 1_000_000_000_000_000);
    let v3 = v2 * q + c[3];
    lemma_horner_grows(v3, q, 4_000_000_000_000_000_000);
    let v4 = v3 * q + c[4];
    lemma_horner_grows(v4, q, 10_000_000_000_000_000_000_000);
    let v5 = v4 * q + c[5];
    lemma_horner_grows(v5, q, 40_000_000_000_000_000_000_000_000);
    let v6 = v5 * q + c[6];
    lemma_horner_grows(v6, q, 100_000_000_000_000_000_000_000_000_000);
    let v7 = v6 * q + c[7];
    assert(v7 == still_level_curve(q));
    assert(abs_int(v7) >= 100_000_000_000_000_000_000_000_000_000_000);
    assert((v7 > 0) == (q > 0));
    let n = 2 * abs_int(v7) + STILL_LEVEL_ONE;
    let d = 2 * STILL_LEVEL_ONE;
    lemma_div_by_multiple(5_000_000_000, d);
    lemma_div_is_ordered(5_000_000_000 * d, n, d);
}

/// Level of a still picture: the level curve at `qindex`, rounded to the
/// nearest integer and clamped.
pub fn still_get_qmlevel(qindex: i32, min: i32, max: i32) -> (r: i32)
    requires
        min <= max,
    ensures
        r == clamp_int(
            still_level_rounded(still_level_curve(qindex as int)),
            min as int,
            max as int,
        ),
{
    if qindex >= STILL_LEVEL_REACH {
        proof {
            lemma_still_level_far(qindex as int);
        }
        return max;
    }
    if qindex <= -STILL_LEVEL_REACH {
        proof {
            lemma_still_level_far(qindex as int);
        }
        return min;
    }
    let v1: i128 = still_level_step(STILL_LEVEL_COEFFS[0], qindex, 1);
    let v2: i128 = still_level_step(v1, qindex, 2);
    let v3: i128 = still_level_step(v2, qindex, 3);
    let v4: i128 = still_level_step(v3, qindex, 4);
    let v5: i128 = still_level_step(v4, qindex, 5);
    let v6: i128 = still_level_step(v5, qindex, 6);
    let v7: i128 = still_level_step(v6, qindex, 7);
    let level: i128 = if v7 >= 0 {
        (2 * v7 + STILL_LEVEL_ONE) / (2 * STILL_LEVEL_ONE)
    } else {
        -((2 * -v7 + STILL_LEVEL_ONE) / (2 * STILL_LEVEL_ONE))
    };
    if level < min as i128 {
        min
    } else if level > max as i128 {
        max
    } else {
        level as i32
    }
}

/// The flat weight tables, level by level, luma before chroma.
#[derive(Clone, Copy)]
pub struct QmTables<'a> {
    /// Forward weights.
    pub wt: &'a [u8],
    /// Inverse weights.
    pub iwt: &'a [u8],
}

/// Both tables hold every level below the identity, for both plane classes.
pub open spec fn qm_tables_wf(tables: QmTables) -> bool {
    &&& tables.wt@.len() == 15 * 2 * QM_TOTAL_SIZE
    &&& tables.iwt@.len() == 15 * 2 * QM_TOTAL_SIZE
}

/// Where the matrix of a level, plane class and transform size starts.
pub open spec fn qm_start(level: int, is_chroma: bool, c_tx: int) -> int {
    (level * 2 + if is_chroma {
        1int
    } else {
        0int
    }) * 3344 + QM_OFFSET[c_tx]
}

/// The forward and inverse matrix of a transform size, or nothing at the
/// identity level.
pub fn qm_slices<'a>(tables: &QmTables<'a>, level: usize, is_chroma: bool, c_tx: usize) -> (r: Option<
    (&'a [u8], &'a [u8]),
>)
    requires
        qm_tables_wf(*tables),
        c_tx < 19,
    ensures
        r is None <==> level >= 15,
        r matches Some((wt, iwt)) ==> {
            let start = qm_start(level as int, is_chroma, c_tx as int);
            let n = QM_SIZE_2D[c_tx as int] as int;
            &&& wt@ == tables.wt@.subrange(start, start + n)
            &&& iwt@ == tables.iwt@.subrange(start, start + n)
            &&& wt@.len() == n
            &&& iwt@.len() == n
        },
{
    if level >= NUM_QM_LEVELS - 1 {
        return None;
    }
    proof {
        qm_layout_is_packed(c_tx as int);
    }
    let p: usize = if is_chroma {
        1
    } else {
        0
    };
    let start: usize = (level * 2 + p) * QM_TOTAL_SIZE + QM_OFFSET[c_tx];
    let n: usize = QM_SIZE_2D[c_tx];
    let wt: &'a [u8] = tables.wt;
    let iwt: &'a [u8] = tables.iwt;
    Some((&wt[start..start + n], &iwt[start..start + n]))
}

/// The step size at raster position `coeff_idx`, with the inverse matrix
/// weight applied where there is one.
pub fn dqv_qm(dequant: &[i32; 2], coeff_idx: usize, iwt: Option<&[u8]>) -> (r: i32)
    requires
        forall|i: int| 0 <= i < 2 ==> 0 <= #[trigger] dequant@[i] <= 0x8000,
        iwt matches Some(m) ==> coeff_idx < m@.len(),
    ensures
        r == weighted_step(dequant@, coeff_idx as int, inverse_weight_at(matrix_view(iwt), coeff_idx as int)),
        0 <= r <= 0x4_0000,
        iwt is None ==> r == dequant@[entry_of(coeff_idx as int)],
{
    let iw: i32 = match iwt {
        None => 32,
        Some(m) => m[coeff_idx] as i32,
    };
    let d: i32 = dequant[if coeff_idx == 0 {
        0
    } else {
        1
    }];
    proof {
        lemma_mul_upper_bound(d as int, 0x8000, iw as int, 255);
        lemma_mul_nonnegative(d as int, iw as int);
    }
    (d * iw + 16) / 32
}

/// The dead-zone quantizer with matrices, at 8 bits.
pub fn quantize_b_qm(
    coeffs: &[i32],
    scan: &[u16],
    t: &QuantTable,
    log_scale: i32,
    wt: &[u8],
    iwt: &[u8],
    qcoeff: &mut [i32],
    dqcoeff: &mut [i32],
) -> (eob: u16)
    requires
        quantizer_inputs(coeffs@, scan@, *t, log_scale, old(qcoeff)@.len() as int, old(dqcoeff)@.len() as int),
        coeffs@.len() <= wt@.len(),
        coeffs@.len() <= iwt@.len(),
    ensures
        quantized_block(
            (Kernel { dead_zone: true, saturate: true }),
            coeffs@,
            |rc: int| visits(scan@, rc),
            *t,
            log_scale as nat,
            Some(wt@),
            Some(iwt@),
            old(qcoeff)@,
            old(dqcoeff)@,
            final(qcoeff)@,
            final(dqcoeff)@,
        ),
        eob == eob_of(scan@, final(qcoeff)@),
{
    quantize_scan(
        Kernel { dead_zone: true, saturate: true },
        coeffs,
        scan,
        t,
        log_scale,
        Some(wt),
        Some(iwt),
        qcoeff,
        dqcoeff,
    )
}

/// The fixed-point quantizer with matrices, at 8 bits.
pub fn quantize_fp_qm(
    coeffs: &[i32],
    scan: &[u16],
    t: &QuantTable,
    log_scale: i32,
    wt: &[u8],
    iwt: &[u8],
    qcoeff: &mut [i32],
    dqcoeff: &mut [i32],
) -> (eob: u16)
    requires
        quantizer_inputs(coeffs@, scan@, *t, log_scale, old(qcoeff)@.len() as int, old(dqcoeff)@.len() as int),
        coeffs@.len() <= wt@.len(),
        coeffs@.len() <= iwt@.len(),
    ensures
        quantized_block(
            (Kernel { dead_zone: false, saturate: true }),
            coeffs@,
            |rc: int| visits(scan@, rc),
            *t,
            log_scale as nat,
            Some(wt@),
            Some(iwt@),
            old(qcoeff)@,
            old(dqcoeff)@,
            final(qcoeff)@,
            final(dqcoeff)@,
        ),
        eob == eob_of(scan@, final(qcoeff)@),
{
    quantize_scan(
        Kernel { dead_zone: false, saturate: true },
        coeffs,
        scan,
        t,
        log_scale,
        Some(wt),
        Some(iwt),
        qcoeff,
        dqcoeff,
    )
}

/// The fixed-point quantizer with matrices, above 8 bits.
pub fn quantize_fp_hbd_qm(
    coeffs: &[i32],
    scan: &[u16],
    t: &QuantTable,
    log_scale: i32,
    wt: &[u8],
    iwt: &[u8],
    qcoeff: &mut [i32],
    dqcoeff: &mut [i32],
) -> (eob: u16)
    requires
        quantizer_inputs(coeffs@, scan@, *t, log_scale, old(qcoeff)@.len() as int, old(dqcoeff)@.len() as int),
        coeffs@.len() <= wt@.len(),
        coeffs@.len() <= iwt@.len(),
    ensures
        quantized_block(
            (Kernel { dead_zone: false, saturate: false }),
            coeffs@,
            |rc: int| visits(scan@, rc),
            *t,
            log_scale as nat,
            Some(wt@),
            Some(iwt@),
            old(qcoeff)@,
            old(dqcoeff)@,
            final(qcoeff)@,
            final(dqcoeff)@,
        ),
        eob == eob_of(scan@, final(qcoeff)@),
{
    quantize_scan(
        Kernel { dead_zone: false, saturate: false },
        coeffs,
        scan,
        t,
        log_scale,
        Some(wt),
        Some(iwt),
        qcoeff,
        dqcoeff,
    )
}

/// The dead-zone quantizer with matrices, above 8 bits.
pub fn quantize_b_hbd_qm(
    coeffs: &[i32],
    scan: &[u16],
    t: &QuantTable,
    log_scale: i32,
    wt: &[u8],
    iwt: &[u8],
    qcoeff: &mut [i32],
    dqcoeff: &mut [i32],
) -> (eob: u16)
    requires
        quantizer_inputs(coeffs@, scan@, *t, log_scale, old(qcoeff)@.len() as int, old(dqcoeff)@.len() as int),
        coeffs@.len() <= wt@.len(),
        coeffs@.len() <= iwt@.len(),
    ensures
        quantized_block(
            (Kernel { dead_zone: true, saturate: false }),
            coeffs@,
            |rc: int| visits(scan@, rc),
            *t,
            log_scale as nat,
            Some(wt@),
            Some(iwt@),
            old(qcoeff)@,
            old(dqcoeff)@,
            final(qcoeff)@,
            final(dqcoeff)@,
        ),
        eob == eob_of(scan@, final(qcoeff)@),
{
    quantize_scan(
        Kernel { dead_zone: true, saturate: false },
        coeffs,
        scan,
        t,
        log_scale,
        Some(wt),
        Some(iwt),
        qcoeff,
        dqcoeff,
    )
}

} // verus!
