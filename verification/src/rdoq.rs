//! Rate-distortion optimized quantization of a still-picture transform block:
//! how strongly to weigh rate, which level of optimization a picture gets,
//! and the block quantizer that puts them together.

use vstd::arithmetic::div_mod::{lemma_div_is_ordered_by_denominator, lemma_div_pos_is_pos};
use vstd::arithmetic::mul::{
    lemma_mul_is_associative, lemma_mul_is_distributive_add, lemma_mul_nonnegative, lemma_mul_upper_bound,
};
use vstd::arithmetic::power2::{lemma2_to64, lemma_pow2_pos, lemma_pow2_strictly_increases, pow2};
use vstd::prelude::*;
use vstd::slice::slice_to_vec;

use crate::arith::{abs_int, clamp_int, max_int, shr_i64, shr_int};
use crate::coeff_costs::{cost_tables_wf, CoeffCostTables};
use crate::coeff_ctx::{
    lemma_txb_dims, txb_high, txb_high_spec, txb_wide, txb_wide_spec, TXSIZE_ENTROPY_CTX, TXSIZE_LOG2_MINUS4,
};
use crate::qm::{
    qm_layout_is_packed, qm_slices, qm_start, qm_tables_wf, quantize_b_qm, quantize_fp_qm, QmTables, QM_SIZE_2D,
};
use crate::quant::{
    build_quant_table, entry_of, eob_of, inverse_weight_at, is_quant_table, lemma_level_fits, level_of, matrix_view,
    quant_table_determined, quantize_b, quantize_fp, quantized_block, reconstructed, rounded_magnitude, table_wf,
    visits, weight_at, weighted_step, with_sign, Kernel, QuantTable, COEFF_LIMIT, TX_SCALE_TAB,
};
use crate::trellis::{env_of, lemma_recon_zero, optimize_b, optimized, OptimizeCtx};
use crate::trellis_laws::{
    eob_is_exact_end, exact_end, mirrored, optimize_keeps_block_exact, scan_distinct,
};

verus! {

/// Rate weight of a plane type: `[still or real-time][inter][plane type]`.
pub const PLANE_RD_MULT: [[[i64; 2]; 2]; 2] = [[[17, 20], [16, 20]], [[17, 13], [16, 10]]];

/// Rate weight of a plane type. Even plane types are luma, odd ones chroma.
pub open spec fn plane_weight(allintra: bool, is_inter: bool, plane_type: int) -> int {
    if plane_type % 2 == 0 {
        if is_inter {
            16
        } else {
            17
        }
    } else if !allintra {
        20
    } else if is_inter {
        10
    } else {
        13
    }
}

/// Looks up [`PLANE_RD_MULT`].
pub fn plane_rd_mult(allintra_rd_mult: bool, is_inter: bool, plane_type: usize) -> (r: i64)
    ensures
        r == plane_weight(allintra_rd_mult, is_inter, plane_type as int),
        10 <= r <= 20,
{
    let a: usize = if allintra_rd_mult {
        1
    } else {
        0
    };
    let b: usize = if is_inter {
        1
    } else {
        0
    };
    PLANE_RD_MULT[a][b][plane_type % 2]
}

/// The luma weight does not depend on whether the picture is a still.
pub proof fn luma_weight_ignores_the_arm(is_inter: bool, plane_type: int)
    requires
        plane_type % 2 == 0,
    ensures
        plane_weight(true, is_inter, plane_type) == plane_weight(false, is_inter, plane_type),
{
}

/// Percentage of the rate weight that is applied.
pub open spec fn rate_percent(light_rdoq: bool, sharp_tx_active: bool) -> int {
    if light_rdoq {
        10
    } else if sharp_tx_active {
        0
    } else {
        100
    }
}

/// The rate multiplier of a block.
pub open spec fn rdmult_of(
    lambda: int,
    plane_type: int,
    sharpness: int,
    light_rdoq: bool,
    sharp_tx_active: bool,
    allintra: bool,
    is_inter: bool,
) -> int {
    shr_int(
        (lambda * plane_weight(allintra, is_inter, plane_type) * rate_percent(light_rdoq, sharp_tx_active))
            / 100 + 2,
        max_int(clamp_int(sharpness, 0, 7), 2) as nat,
    )
}

/// The rate multiplier of an intra block of a still picture.
pub fn rdoq_rdmult(lambda: u32, plane_type: usize) -> (r: i64)
    ensures
        r == rdmult_of(lambda as int, plane_type as int, 0, false, false, true, false),
        0 <= r <= 0x5_0000_0000,
{
    rdoq_rdmult_sharp(lambda, plane_type, 0, false)
}

/// The rate multiplier of an intra block of a still picture, with sharpness.
pub fn rdoq_rdmult_sharp(lambda: u32, plane_type: usize, sharpness: i8, light_rdoq: bool) -> (r: i64)
    ensures
        r == rdmult_of(
            lambda as int,
            plane_type as int,
            sharpness as int,
            light_rdoq,
            false,
            true,
            false,
        ),
        0 <= r <= 0x5_0000_0000,
{
    rdoq_rdmult_full(lambda, plane_type, sharpness, light_rdoq, false, true, false)
}

/// The rate multiplier of a block.
pub fn rdoq_rdmult_full(
    lambda: u32,
    plane_type: usize,
    sharpness: i8,
    light_rdoq: bool,
    sharp_tx_active: bool,
    allintra_rd_mult: bool,
    is_inter: bool,
) -> (r: i64)
    ensures
        r == rdmult_of(
            lambda as int,
            plane_type as int,
            sharpness as int,
            light_rdoq,
            sharp_tx_active,
            allintra_rd_mult,
            is_inter,
        ),
        0 <= r <= 0x5_0000_0000,
{
    let rshift: u32 = if sharpness > 7 {
        7
    } else if sharpness < 2 {
        2
    } else {
        sharpness as u32
    };
    let rweight: i64 = if light_rdoq {
        10
    } else if sharp_tx_active {
        0
    } else {
        100
    };
    let prm: i64 = plane_rd_mult(allintra_rd_mult, is_inter, plane_type);
    proof {
        lemma_rdmult_bound(lambda as int, prm as int, rweight as int, rshift as nat);
        lemma_mul_upper_bound(lambda as int, 0xffff_ffff, prm as int, 20);
        lemma_mul_nonnegative(lambda as int, prm as int);
    }
    shr_i64((lambda as i64 * prm * rweight) / 100 + 2, rshift)
}

/// Whether a chroma block of the encode pass has so little left that its
/// optimization is weakened: a near-zero DC with a sparse tail, or a small DC
/// alone.
pub open spec fn low_dc_chroma(
    fork_mode: bool,
    is_encode_pass: bool,
    is_idtx: bool,
    plane_type: int,
    dc: int,
    eob: int,
    n_coeffs: int,
) -> bool {
    &&& fork_mode
    &&& is_encode_pass
    &&& !is_idtx
    &&& plane_type != 0
    &&& eob != 0
    &&& (-1 <= dc <= 1 && eob <= n_coeffs / 16) || (-4 <= dc <= 4 && eob <= 1)
}

/// Evaluates [`low_dc_chroma`].
pub fn light_rdoq_low_dc_chroma(
    fork_mode: bool,
    is_encode_pass: bool,
    is_idtx: bool,
    plane_type: usize,
    dc: i32,
    eob: u16,
    n_coeffs: u32,
) -> (r: bool)
    ensures
        r == low_dc_chroma(
            fork_mode,
            is_encode_pass,
            is_idtx,
            plane_type as int,
            dc as int,
            eob as int,
            n_coeffs as int,
        ),
{
    if !fork_mode || !is_encode_pass || is_idtx || plane_type == 0 || eob == 0 {
        return false;
    }
    (-1 <= dc && dc <= 1 && eob as u32 <= n_coeffs / 16) || (-4 <= dc && dc <= 4 && eob <= 1)
}

/// How busy a picture's coefficients are expected to be.
#[derive(Debug, Clone, Copy, PartialEq, Eq, Structural)]
pub enum CoeffLvl {
    VLow,
    Low,
    Normal,
    High,
}

/// The band a complexity falls in.
pub open spec fn coeff_band(complexity: int, vlow: int, low: int, high: int) -> CoeffLvl {
    if complexity < vlow {
        CoeffLvl::VLow
    } else if complexity < low {
        CoeffLvl::Low
    } else if complexity > high {
        CoeffLvl::High
    } else {
        CoeffLvl::Normal
    }
}

/// Resolution class of a picture: below 240p, below 720p, below 1080p, other.
pub open spec fn pixel_class(pixels: int) -> int {
    if pixels < 0x2_8500 {
        0
    } else if pixels < 0xA_1400 {
        1
    } else if pixels < 0x16_DA00 {
        2
    } else {
        3
    }
}

/// Scale, in tenths, of the complexity thresholds of a resolution class.
pub open spec fn threshold_tenths(class: int) -> int {
    if class == 0 {
        17
    } else if class == 1 {
        13
    } else if class == 2 {
        12
    } else {
        10
    }
}

/// The band of a complexity under base thresholds scaled for a resolution.
pub open spec fn scaled_band(complexity: int, vlow: int, low: int, high: int, pixels: int) -> CoeffLvl {
    let k = threshold_tenths(pixel_class(pixels));
    coeff_band(complexity, (vlow * k) / 10, (low * k) / 10, (high * k) / 10)
}

fn band_of(complexity: u64, vlow: u64, low: u64, high: u64, pixels: usize) -> (r: CoeffLvl)
    requires
        vlow <= 1000,
        low <= 1000,
        high <= 1000,
    ensures
        r == scaled_band(complexity as int, vlow as int, low as int, high as int, pixels as int),
{
    let k: u64 = if pixels < 0x2_8500 {
        17
    } else if pixels < 0xA_1400 {
        13
    } else if pixels < 0x16_DA00 {
        12
    } else {
        10
    };
    if complexity < vlow * k / 10 {
        CoeffLvl::VLow
    } else if complexity < low * k / 10 {
        CoeffLvl::Low
    } else if complexity > high * k / 10 {
        CoeffLvl::High
    } else {
        CoeffLvl::Normal
    }
}

/// Coefficient class of an intra picture: its variance per quantizer step
/// against the thresholds 25, 50 and 150, scaled for the resolution.
pub fn derive_intra_coeff_level(pic_avg_variance: u16, cli_qp: u32, w: usize, h: usize) -> (r: CoeffLvl)
    requires
        w * h <= usize::MAX,
    ensures
        r == scaled_band(pic_avg_variance as int / max_int(1, cli_qp as int), 25, 50, 150, w * h),
{
    let qp: u64 = if cli_qp < 1 {
        1
    } else {
        cli_qp as u64
    };
    band_of(pic_avg_variance as u64 / qp, 25, 50, 150, w * h)
}

/// Coefficient class of an inter picture: its motion-compensated distortion
/// per quantizer step against the thresholds 60, 121 and 347, scaled for the
/// resolution.
pub fn derive_inter_coeff_level(norm_me_dist: u64, cli_qp: u32, w: usize, h: usize) -> (r: CoeffLvl)
    requires
        w * h <= usize::MAX,
    ensures
        r == scaled_band(norm_me_dist as int / max_int(1, cli_qp as int), 60, 121, 347, w * h),
{
    let qp: u64 = if cli_qp < 1 {
        1
    } else {
        cli_qp as u64
    };
    band_of(norm_me_dist / qp, 60, 121, 347, w * h)
}

/// Optimization level of a still picture: level 1 up to preset 5, then by
/// coefficient class.
pub fn rdoq_level_allintra(eff_enc_mode: i8, coeff_lvl: CoeffLvl) -> (r: u8)
    ensures
        r == if eff_enc_mode <= 5 {
            1u8
        } else {
            match coeff_lvl {
                CoeffLvl::High => 0u8,
                CoeffLvl::Normal => 3u8,
                _ => 2u8,
            }
        },
{
    if eff_enc_mode <= 5 {
        1
    } else {
        match coeff_lvl {
            CoeffLvl::High => 0,
            CoeffLvl::Normal => 3,
            _ => 2,
        }
    }
}

/// Share of a block an optimization level covers, as a fraction; a zero
/// numerator means all of it.
pub fn rdoq_cutoffs(rdoq_level: u8) -> (r: (u32, u32))
    ensures
        r == if rdoq_level == 1 {
            (0u32, 0u32)
        } else if rdoq_level == 2 {
            (80u32, 100u32)
        } else {
            (60u32, 100u32)
        },
{
    match rdoq_level {
        1 => (0, 0),
        2 => (80, 100),
        _ => (60, 100),
    }
}

/// Frame-level configuration of the block quantizer.
pub struct CodingQuantCfg {
    /// Coefficient class of the picture.
    pub input_coeff_level: CoeffLvl,
    /// 0 selects the plain dead-zone quantizer.
    pub rdoq_level: u8,
    /// Enables the weakened chroma optimization and noise normalization.
    pub hdr_fork: bool,
    pub sharpness: i8,
    pub is_encode_pass: bool,
    /// Strength of noise normalization; 0 is off.
    pub noise_norm_strength: u8,
    /// Drops the rate term of luma and keeps its end of block.
    pub sharp_tx_active: bool,
    /// Matrix level of each plane; 15 is off.
    pub qm_levels: [u8; 3],
    /// The picture is a still or real-time one.
    pub allintra_rd_mult: bool,
    pub lambda: u32,
    pub costs: CoeffCostTables,
}

impl CodingQuantCfg {
    /// A still picture's configuration with every extra off.
    pub fn new(rdoq_level: u8, lambda: u32, costs: CoeffCostTables) -> (r: Self)
        ensures
            r.input_coeff_level == CoeffLvl::Normal,
            r.rdoq_level == rdoq_level,
            !r.hdr_fork,
            r.sharpness == 0,
            r.is_encode_pass,
            r.noise_norm_strength == 0,
            !r.sharp_tx_active,
            r.qm_levels@ == seq![15u8, 15u8, 15u8],
            r.allintra_rd_mult,
            r.lambda == lambda,
            r.costs == costs,
    {
        CodingQuantCfg {
            input_coeff_level: CoeffLvl::Normal,
            rdoq_level,
            hdr_fork: false,
            sharpness: 0,
            is_encode_pass: true,
            noise_norm_strength: 0,
            sharp_tx_active: false,
            qm_levels: [15, 15, 15],
            allintra_rd_mult: true,
            lambda,
            costs,
        }
    }
}

/// Forward and inverse weights cancel to within a factor of two.
pub open spec fn weights_paired(wt: Seq<u8>, iwt: Seq<u8>) -> bool {
    forall|i: int| 0 <= i < wt.len() ==> (#[trigger] wt[i]) * iwt[i] <= 2048
}

/// The multiplier a block is optimized with.
pub open spec fn block_rdmult(cfg: CodingQuantCfg, plane_type: int, light: bool) -> int {
    rdmult_of(
        cfg.lambda as int,
        plane_type,
        cfg.sharpness as int,
        light,
        cfg.sharp_tx_active && plane_type == 0,
        cfg.allintra_rd_mult,
        false,
    )
}

/// `o` is the optimization context of a block whose quantized DC is `dc` and
/// whose end of block is `eob`.
pub open spec fn is_block_ctx(
    o: OptimizeCtx,
    cfg: CodingQuantCfg,
    tx_size: int,
    tx_class: int,
    plane_type: int,
    is_idtx: bool,
    iwt: Option<Seq<u8>>,
    dc: int,
    eob: int,
) -> bool {
    let light = low_dc_chroma(
        cfg.hdr_fork,
        cfg.is_encode_pass,
        is_idtx,
        plane_type,
        dc,
        eob,
        txb_wide_spec(tx_size) * txb_high_spec(tx_size),
    );
    &&& *o.txb_costs == cfg.costs.txb@[TXSIZE_ENTROPY_CTX[tx_size] * 2 + plane_type]
    &&& *o.eob_costs == cfg.costs.eob@[TXSIZE_LOG2_MINUS4[tx_size] * 2 + plane_type]
    &&& o.rdmult == block_rdmult(cfg, plane_type, light)
    &&& o.tx_size == tx_size
    &&& o.tx_class == tx_class
    &&& o.txb_skip_ctx == 0
    &&& o.dc_sign_ctx == 0
    &&& o.sharpness_flag == (cfg.sharp_tx_active && plane_type == 0)
    &&& matrix_view(o.iwt) == iwt
    &&& o.cut_off_num == if cfg.rdoq_level == 1 {
        0
    } else if cfg.rdoq_level == 2 {
        80
    } else {
        60int
    }
    &&& o.cut_off_denum == if cfg.rdoq_level == 1 {
        0
    } else {
        100int
    }
}

/// What quantizing a block leaves behind: the plain dead-zone levels at
/// optimization level 0, and otherwise the optimized fixed-point levels.
pub open spec fn still_block(
    cfg: CodingQuantCfg,
    tcoeffs: &[i32],
    scan: &[u16],
    t: QuantTable,
    tx_size: int,
    tx_class: int,
    plane_type: int,
    is_idtx: bool,
    wt: Option<Seq<u8>>,
    iwt: Option<Seq<u8>>,
    q0: Seq<i32>,
    d0: Seq<i32>,
    q: Seq<i32>,
    d: Seq<i32>,
    eob: int,
) -> bool {
    let ls = TX_SCALE_TAB[tx_size] as nat;
    let visited = |rc: int| wt is None || visits(scan@, rc);
    if cfg.rdoq_level == 0 {
        &&& quantized_block(
            Kernel { dead_zone: true, saturate: true },
            tcoeffs@,
            visited,
            t,
            ls,
            wt,
            iwt,
            q0,
            d0,
            q,
            d,
        )
        &&& eob == eob_of(scan@, q)
    } else {
        exists|q1: Seq<i32>, d1: Seq<i32>|
            #[trigger] quantized_block(
                Kernel { dead_zone: false, saturate: true },
                tcoeffs@,
                visited,
                t,
                ls,
                wt,
                iwt,
                q0,
                d0,
                q1,
                d1,
            ) && optimized_block(
                cfg,
                tcoeffs,
                scan,
                t,
                tx_size,
                tx_class,
                plane_type,
                is_idtx,
                iwt,
                q1,
                d1,
                q,
                d,
                eob,
            )
    }
}

/// The optimization of the quantized block `(q1, d1)` is `(q, d)` with the
/// given end of block; an empty block is left alone.
pub open spec fn optimized_block(
    cfg: CodingQuantCfg,
    tcoeffs: &[i32],
    scan: &[u16],
    t: QuantTable,
    tx_size: int,
    tx_class: int,
    plane_type: int,
    is_idtx: bool,
    iwt: Option<Seq<u8>>,
    q1: Seq<i32>,
    d1: Seq<i32>,
    q: Seq<i32>,
    d: Seq<i32>,
    eob: int,
) -> bool {
    let eob1 = eob_of(scan@, q1);
    if eob1 == 0 {
        q == q1 && d == d1 && eob == 0
    } else {
        exists|o: OptimizeCtx|
            {
                let s = optimized(env_of(tcoeffs, scan, &t, &o), q1, d1, eob1);
                &&& #[trigger] is_block_ctx(
                    o,
                    cfg,
                    tx_size,
                    tx_class,
                    plane_type,
                    is_idtx,
                    iwt,
                    q1[scan@[0] as int] as int,
                    eob1,
                )
                &&& q == s.q
                &&& d == s.d
                &&& eob == s.eob
            }
    }
}

/// A quantized block to normalize the noise of.
#[derive(Debug)]
pub struct NoiseRequest {
    pub dequant: [i32; 2],
    /// Inverse matrix weights, where a matrix applies.
    pub iwt: Option<Vec<u8>>,
    /// The coefficients before quantization.
    pub tcoeffs: Vec<i32>,
    pub qcoeff: Vec<i32>,
    pub dqcoeff: Vec<i32>,
    pub eob: u16,
    pub scan: Vec<u16>,
    pub tx_size: usize,
    pub strength: u8,
}

/// A block whose noise has been normalized.
#[derive(Debug)]
pub struct NormalizedTxb {
    pub qcoeff: Vec<i32>,
    pub dqcoeff: Vec<i32>,
    pub eob: u16,
}

/// Noise is normalized: in the encode pass, on luma blocks that hold a level
/// and are transformed.
pub open spec fn normalizes(cfg: CodingQuantCfg, plane_type: int, is_idtx: bool, eob: int) -> bool {
    cfg.hdr_fork && cfg.noise_norm_strength > 0 && cfg.is_encode_pass && eob != 0 && !is_idtx && plane_type == 0
}

/// `normalize` has been handed a quantized block and returned another.
pub open spec fn noise_normalized<N: Fn(NoiseRequest) -> NormalizedTxb>(
    normalize: N,
    cfg: CodingQuantCfg,
    tcoeffs: Seq<i32>,
    scan: Seq<u16>,
    t: QuantTable,
    tx_size: int,
    iwt: Option<Seq<u8>>,
    q1: Seq<i32>,
    d1: Seq<i32>,
    eob1: int,
    q: Seq<i32>,
    d: Seq<i32>,
    eob: int,
) -> bool {
    exists|x: NoiseRequest, y: NormalizedTxb|
        {
            &&& #[trigger] call_ensures(normalize, (x,), y)
            &&& x.dequant@ == t.dequant@
            &&& iwt is Some <==> x.iwt is Some
            &&& iwt is Some ==> (x.iwt->0)@ == iwt->0
            &&& x.tcoeffs@ == tcoeffs
            &&& x.qcoeff@ == q1
            &&& x.dqcoeff@ == d1
            &&& x.eob == eob1
            &&& x.scan@ == scan
            &&& x.tx_size == tx_size
            &&& x.strength == cfg.noise_norm_strength
            &&& y.qcoeff@ == q
            &&& y.dqcoeff@ == d
            &&& y.eob == eob
        }
}

/// The last step of quantizing a block: noise is normalized, or the block is
/// left as it is.
pub open spec fn finished_block<N: Fn(NoiseRequest) -> NormalizedTxb>(
    normalize: N,
    cfg: CodingQuantCfg,
    tcoeffs: Seq<i32>,
    scan: Seq<u16>,
    t: QuantTable,
    tx_size: int,
    plane_type: int,
    is_idtx: bool,
    iwt: Option<Seq<u8>>,
    q1: Seq<i32>,
    d1: Seq<i32>,
    eob1: int,
    q: Seq<i32>,
    d: Seq<i32>,
    eob: int,
) -> bool {
    if normalizes(cfg, plane_type, is_idtx, eob1) {
        noise_normalized(normalize, cfg, tcoeffs, scan, t, tx_size, iwt, q1, d1, eob1, q, d, eob)
    } else {
        q == q1 && d == d1 && eob == eob1
    }
}

/// `normalize` takes every block and keeps the sizes of its buffers.
pub open spec fn is_normalize<N: Fn(NoiseRequest) -> NormalizedTxb>(normalize: N) -> bool {
    &&& forall|x: NoiseRequest| #[trigger] call_requires(normalize, (x,))
    &&& forall|x: NoiseRequest, y: NormalizedTxb| #[trigger]
        call_ensures(normalize, (x,), y) ==> y.qcoeff@.len() == x.qcoeff@.len() && y.dqcoeff@.len()
            == x.dqcoeff@.len()
}

/// Matrices apply: to transformed blocks, below the identity level.
pub open spec fn uses_matrices(is_idtx: bool, qm_level: u8) -> bool {
    !is_idtx && qm_level < 15
}

/// The matrix of a block in one of the tables, where one applies.
pub open spec fn block_matrix(table: Seq<u8>, is_idtx: bool, qm_level: u8, plane_type: int, c_tx: int) -> Option<Seq<u8>> {
    if uses_matrices(is_idtx, qm_level) {
        let start = qm_start(qm_level as int, plane_type == 1, c_tx);
        Some(table.subrange(start, start + QM_SIZE_2D[c_tx]))
    } else {
        None
    }
}

proof fn lemma_matrix_size(c_tx: int)
    requires
        0 <= c_tx < 19,
    ensures
        QM_SIZE_2D[c_tx] == txb_wide_spec(c_tx) * txb_high_spec(c_tx),
{
    let w = txb_wide_spec(c_tx);
    let h = txb_high_spec(c_tx);
    let n = QM_SIZE_2D[c_tx] as int;
    assert(n == w * h) by (nonlinear_arith)
        requires
            (w == 4 && h == 4 && n == 16)
                || (w == 4 && h == 8 && n == 32)
                || (w == 4 && h == 16 && n == 64)
                || (w == 8 && h == 4 && n == 32)
                || (w == 8 && h == 8 && n == 64)
                || (w == 8 && h == 16 && n == 128)
                || (w == 8 && h == 32 && n == 256)
                || (w == 16 && h == 4 && n == 64)
                || (w == 16 && h == 8 && n == 128)
                || (w == 16 && h == 16 && n == 256)
                || (w == 16 && h == 32 && n == 512)
                || (w == 32 && h == 8 && n == 256)
                || (w == 32 && h == 16 && n == 512)
                || (w == 32 && h == 32 && n == 1024),
    ;
}

proof fn lemma_quantized_bounds(
    k: Kernel,
    coeffs: Seq<i32>,
    visited: spec_fn(int) -> bool,
    t: QuantTable,
    ls: nat,
    wt: Option<Seq<u8>>,
    iwt: Option<Seq<u8>>,
    q0: Seq<i32>,
    d0: Seq<i32>,
    q: Seq<i32>,
    d: Seq<i32>,
    rc: int,
)
    requires
        quantized_block(k, coeffs, visited, t, ls, wt, iwt, q0, d0, q, d),
        k.saturate,
        table_wf(t),
        ls <= 4,
        0 <= rc < coeffs.len(),
        -COEFF_LIMIT <= coeffs[rc] <= COEFF_LIMIT,
        coeffs.len() <= q0.len(),
        coeffs.len() <= d0.len(),
        wt is Some <==> iwt is Some,
        wt matches Some(w) ==> weights_paired(w, iwt->0) && coeffs.len() <= w.len() && w.len() == iwt->0.len(),
    ensures
        q[rc] > i32::MIN,
        -0x8_0000 <= d[rc] <= 0x8_0000,
        reconstructed(
            abs_int(q[rc] as int),
            weighted_step(t.dequant@, rc, inverse_weight_at(iwt, rc)),
            ls,
        ) <= 0x8_0000,
{
    let c = coeffs[rc] as int;
    let w = weight_at(wt, rc);
    let iw = inverse_weight_at(iwt, rc);
    let step = weighted_step(t.dequant@, rc, iw);
    let level = level_of(k, t, ls, w, rc, c);
    let s = rounded_magnitude(k, t, ls, rc, c);
    lemma_level_fits(k, t, ls, w, rc, c);
    assert(s <= 0x7fff);
    let dq = t.dequant@[entry_of(rc)] as int;
    assert(1 <= dq);
    lemma_mul_nonnegative(dq, iw);
    assert(step >= 0);
    lemma_recon_zero(step, ls);
    lemma_recon_nonnegative(level, step, ls);
    if wt is Some {
        let wv = w->0;
        assert(wv == wt->0[rc]);
        assert(wt->0[rc] * iwt->0[rc] <= 2048);
        lemma_mul_nonnegative(s, wv);
        lemma_mul_is_associative(s, wv, iw + 16);
        lemma_mul_is_distributive_add(wv, iw, 16);
        assert(wv * (iw + 16) <= 6128);
        lemma_mul_nonnegative(wv, iw + 16);
        lemma_mul_upper_bound(s, 0x7fff, wv * (iw + 16), 6128);
    }
}

proof fn lemma_recon_nonnegative(level: int, step: int, ls: nat)
    requires
        0 <= level,
        0 <= step,
    ensures
        0 <= reconstructed(level, step, ls),
{
    lemma_pow2_pos(ls);
    lemma_mul_nonnegative(level, step);
    lemma_div_pos_is_pos(level * step, pow2(ls) as int);
}

/// Quantizes one transform block of a still picture, and optimizes it.
#[verifier::spinoff_prover]
#[verifier::rlimit(40)]
fn quantize_still_block<'a>(
    cfg: &'a CodingQuantCfg,
    tcoeffs: &'a [i32],
    qcoeff: &mut [i32],
    dqcoeff: &mut [i32],
    scan: &'a [u16],
    qindex: u8,
    c_tx_size: usize,
    tx_class: usize,
    plane_type: usize,
    is_idtx: bool,
    matrices: Option<(&'a [u8], &'a [u8])>,
) -> (eob_out: u16)
    requires
        cost_tables_wf(cfg.costs),
        c_tx_size < 19,
        plane_type < 2,
        tcoeffs@.len() == txb_wide_spec(c_tx_size as int) * txb_high_spec(c_tx_size as int),
        tcoeffs@.len() <= old(qcoeff)@.len(),
        tcoeffs@.len() <= old(dqcoeff)@.len(),
        forall|i: int| 0 <= i < tcoeffs@.len() ==> -0x8_0000 <= #[trigger] tcoeffs@[i] <= 0x8_0000,
        scan@.len() <= 1024,
        forall|i: int| 0 <= i < scan@.len() ==> (#[trigger] scan@[i]) < tcoeffs@.len(),
        matrices matches Some((wt, iwt)) ==> {
            &&& wt@.len() == tcoeffs@.len()
            &&& iwt@.len() == tcoeffs@.len()
            &&& weights_paired(wt@, iwt@)
        },
    ensures
        exists|t: QuantTable|
            #[trigger] is_quant_table(t, qindex as int, 8, 0) && still_block(
                *cfg,
                tcoeffs,
                scan,
                t,
                c_tx_size as int,
                tx_class as int,
                plane_type as int,
                is_idtx,
                if is_idtx || matrices is None {
                    None
                } else {
                    Some((matrices->0).0@)
                },
                if is_idtx || matrices is None {
                    None
                } else {
                    Some((matrices->0).1@)
                },
                old(qcoeff)@,
                old(dqcoeff)@,
                final(qcoeff)@,
                final(dqcoeff)@,
                eob_out as int,
            ),
{
    let t: QuantTable = build_quant_table(qindex);
    let log_scale: i32 = TX_SCALE_TAB[c_tx_size];
    let qm: Option<(&'a [u8], &'a [u8])> = if is_idtx {
        None
    } else {
        matrices
    };
    let ghost q0 = qcoeff@;
    let ghost d0 = dqcoeff@;
    let ghost wt: Option<Seq<u8>> = if qm is None {
        None
    } else {
        Some((qm->0).0@)
    };
    let ghost iwt: Option<Seq<u8>> = if qm is None {
        None
    } else {
        Some((qm->0).1@)
    };
    let ghost visited = |rc: int| wt is None || visits(scan@, rc);
    let ghost ls = TX_SCALE_TAB[c_tx_size as int] as nat;
    assert(0 <= log_scale <= 2);
    let mut eob: u16;
    if cfg.rdoq_level == 0 {
        eob = match qm {
            Some((w, iw)) => quantize_b_qm(tcoeffs, scan, &t, log_scale, w, iw, qcoeff, dqcoeff),
            None => quantize_b(tcoeffs, scan, &t, log_scale, qcoeff, dqcoeff),
        };
        assert(quantized_block(
            Kernel { dead_zone: true, saturate: true },
            tcoeffs@,
            visited,
            t,
            ls,
            wt,
            iwt,
            q0,
            d0,
            qcoeff@,
            dqcoeff@,
        ));
    } else {
        eob = match qm {
            Some((w, iw)) => quantize_fp_qm(tcoeffs, scan, &t, log_scale, w, iw, qcoeff, dqcoeff),
            None => quantize_fp(tcoeffs, scan, &t, log_scale, qcoeff, dqcoeff),
        };
        let ghost q1 = qcoeff@;
        let ghost d1 = dqcoeff@;
        let ghost kernel = Kernel { dead_zone: false, saturate: true };
        assert(quantized_block(kernel, tcoeffs@, visited, t, ls, wt, iwt, q0, d0, q1, d1));
        if eob != 0 {
            proof {
                lemma_txb_dims(c_tx_size as int);
                eob_is_exact_end(scan@, q1);
            }
            let n_coeffs: u32 = (txb_wide(c_tx_size) * txb_high(c_tx_size)) as u32;
            let light: bool = light_rdoq_low_dc_chroma(
                cfg.hdr_fork,
                cfg.is_encode_pass,
                is_idtx,
                plane_type,
                qcoeff[scan[0] as usize],
                eob,
                n_coeffs,
            );
            let (cut_off_num, cut_off_denum) = rdoq_cutoffs(cfg.rdoq_level);
            let sharp: bool = cfg.sharp_tx_active && plane_type == 0;
            let o: OptimizeCtx = OptimizeCtx {
                txb_costs: cfg.costs.txb(TXSIZE_ENTROPY_CTX[c_tx_size], plane_type),
                eob_costs: cfg.costs.eob(TXSIZE_LOG2_MINUS4[c_tx_size], plane_type),
                rdmult: rdoq_rdmult_full(
                    cfg.lambda,
                    plane_type,
                    cfg.sharpness,
                    light,
                    sharp,
                    cfg.allintra_rd_mult,
                    false,
                ),
                tx_size: c_tx_size,
                tx_class,
                txb_skip_ctx: 0,
                dc_sign_ctx: 0,
                sharpness_flag: sharp,
                iwt: match qm {
                    Some((_w, iw)) => Some(iw),
                    None => None,
                },
                cut_off_num,
                cut_off_denum,
            };
            proof {
                assert(matrix_view(o.iwt) == iwt);
                assert(is_block_ctx(
                    o,
                    *cfg,
                    c_tx_size as int,
                    tx_class as int,
                    plane_type as int,
                    is_idtx,
                    iwt,
                    q1[scan@[0] as int] as int,
                    eob as int,
                ));
                lemma_block_ready(
                    *cfg,
                    tcoeffs,
                    scan,
                    t,
                    c_tx_size as int,
                    tx_class as int,
                    plane_type as int,
                    is_idtx,
                    wt,
                    iwt,
                    q0,
                    d0,
                    q1,
                    d1,
                    o,
                );
            }
            optimize_b(tcoeffs, qcoeff, dqcoeff, &mut eob, scan, &t, &o);
        }
        assert(optimized_block(
            *cfg,
            tcoeffs,
            scan,
            t,
            c_tx_size as int,
            tx_class as int,
            plane_type as int,
            is_idtx,
            iwt,
            q1,
            d1,
            qcoeff@,
            dqcoeff@,
            eob as int,
        ));
    }
    assert(is_quant_table(t, qindex as int, 8, 0));
    eob
}

/// Copies a block into a buffer.
fn put_levels(dst: &mut [i32], src: &Vec<i32>)
    requires
        src@.len() == old(dst)@.len(),
    ensures
        final(dst)@ == src@,
{
    let mut i: usize = 0;
    while i < src.len()
        invariant
            i <= src@.len(),
            src@.len() == dst@.len(),
            forall|k: int| 0 <= k < i ==> #[trigger] dst@[k] == src@[k],
        decreases src@.len() - i,
    {
        dst[i] = src[i];
        i = i + 1;
    }
    assert(dst@ =~= src@);
}

/// A block has been quantized: with the tables of its quantizer index and the
/// matrices of its level, and then finished.
pub open spec fn block_quantized<N: Fn(NoiseRequest) -> NormalizedTxb>(
    normalize: N,
    cfg: CodingQuantCfg,
    tcoeffs: &[i32],
    scan: &[u16],
    qindex: int,
    tx_size: int,
    tx_class: int,
    plane_type: int,
    is_idtx: bool,
    qm_level: u8,
    tables: QmTables,
    q0: Seq<i32>,
    d0: Seq<i32>,
    q: Seq<i32>,
    d: Seq<i32>,
    eob: int,
) -> bool {
    let wt = block_matrix(tables.wt@, is_idtx, qm_level, plane_type, tx_size);
    let iwt = block_matrix(tables.iwt@, is_idtx, qm_level, plane_type, tx_size);
    exists|t: QuantTable, q1: Seq<i32>, d1: Seq<i32>, eob1: int|
        {
            &&& is_quant_table(t, qindex, 8, 0)
            &&& still_block(
                cfg,
                tcoeffs,
                scan,
                t,
                tx_size,
                tx_class,
                plane_type,
                is_idtx,
                wt,
                iwt,
                q0,
                d0,
                q1,
                d1,
                eob1,
            )
            &&& #[trigger] finished_block(
                normalize,
                cfg,
                tcoeffs@,
                scan@,
                t,
                tx_size,
                plane_type,
                is_idtx,
                iwt,
                q1,
                d1,
                eob1,
                q,
                d,
                eob,
            )
        }
}

/// Quantizes one transform block of a still picture with the matrices of its
/// level, optimizes it, and normalizes its noise where the configuration asks
/// for it.
pub fn quantize_inv_quantize_still<'a, N: Fn(NoiseRequest) -> NormalizedTxb>(
    cfg: &'a CodingQuantCfg,
    tcoeffs: &'a [i32],
    qcoeff: &mut [i32],
    dqcoeff: &mut [i32],
    scan: &'a [u16],
    qindex: u8,
    c_tx_size: usize,
    tx_class: usize,
    plane_type: usize,
    is_idtx: bool,
    qm_level: u8,
    tables: &QmTables<'a>,
    normalize: &N,
) -> (r: u16)
    requires
        cost_tables_wf(cfg.costs),
        c_tx_size < 19,
        plane_type < 2,
        tcoeffs@.len() == txb_wide_spec(c_tx_size as int) * txb_high_spec(c_tx_size as int),
        tcoeffs@.len() <= old(qcoeff)@.len(),
        tcoeffs@.len() <= old(dqcoeff)@.len(),
        forall|i: int| 0 <= i < tcoeffs@.len() ==> -0x8_0000 <= #[trigger] tcoeffs@[i] <= 0x8_0000,
        scan@.len() <= 1024,
        forall|i: int| 0 <= i < scan@.len() ==> (#[trigger] scan@[i]) < tcoeffs@.len(),
        uses_matrices(is_idtx, qm_level) ==> qm_tables_wf(*tables) && weights_paired(
            block_matrix(tables.wt@, is_idtx, qm_level, plane_type as int, c_tx_size as int)->0,
            block_matrix(tables.iwt@, is_idtx, qm_level, plane_type as int, c_tx_size as int)->0,
        ),
        normalizes(*cfg, plane_type as int, is_idtx, 1) ==> is_normalize(*normalize),
    ensures
        block_quantized(
            *normalize,
            *cfg,
            tcoeffs,
            scan,
            qindex as int,
            c_tx_size as int,
            tx_class as int,
            plane_type as int,
            is_idtx,
            qm_level,
            *tables,
            old(qcoeff)@,
            old(dqcoeff)@,
            final(qcoeff)@,
            final(dqcoeff)@,
            r as int,
        ),
{
    let ghost wt = block_matrix(tables.wt@, is_idtx, qm_level, plane_type as int, c_tx_size as int);
    let ghost iwt = block_matrix(tables.iwt@, is_idtx, qm_level, plane_type as int, c_tx_size as int);
    proof {
        lemma_matrix_size(c_tx_size as int);
    }
    let qm: Option<(&'a [u8], &'a [u8])> = if !is_idtx && qm_level < 15 {
        qm_slices(tables, qm_level as usize, plane_type == 1, c_tx_size)
    } else {
        None
    };
    let eob1: u16 = quantize_still_block(
        cfg,
        tcoeffs,
        qcoeff,
        dqcoeff,
        scan,
        qindex,
        c_tx_size,
        tx_class,
        plane_type,
        is_idtx,
        qm,
    );
    let ghost q1 = qcoeff@;
    let ghost d1 = dqcoeff@;
    let t: QuantTable = build_quant_table(qindex);
    let ghost made = choose|made: QuantTable|
        #[trigger] is_quant_table(made, qindex as int, 8, 0) && still_block(
            *cfg,
            tcoeffs,
            scan,
            made,
            c_tx_size as int,
            tx_class as int,
            plane_type as int,
            is_idtx,
            wt,
            iwt,
            old(qcoeff)@,
            old(dqcoeff)@,
            q1,
            d1,
            eob1 as int,
        );
    proof {
        quant_table_determined(made, t, qindex as int, 8, 0);
    }
    let runs: bool = cfg.hdr_fork && cfg.noise_norm_strength > 0 && cfg.is_encode_pass && eob1 != 0 && !is_idtx
        && plane_type == 0;
    let r: u16 = if runs {
        let x: NoiseRequest = NoiseRequest {
            dequant: t.dequant,
            iwt: match qm {
                Some((_w, iw)) => Some(slice_to_vec(iw)),
                None => None,
            },
            tcoeffs: slice_to_vec(tcoeffs),
            qcoeff: slice_to_vec(qcoeff),
            dqcoeff: slice_to_vec(dqcoeff),
            eob: eob1,
            scan: slice_to_vec(scan),
            tx_size: c_tx_size,
            strength: cfg.noise_norm_strength,
        };
        let ghost asked = x;
        let y: NormalizedTxb = normalize(x);
        assert(call_ensures(*normalize, (asked,), y));
        put_levels(qcoeff, &y.qcoeff);
        put_levels(dqcoeff, &y.dqcoeff);
        y.eob
    } else {
        eob1
    };
    assert(finished_block(
        *normalize,
        *cfg,
        tcoeffs@,
        scan@,
        made,
        c_tx_size as int,
        plane_type as int,
        is_idtx,
        iwt,
        q1,
        d1,
        eob1 as int,
        qcoeff@,
        dqcoeff@,
        r as int,
    ));
    r
}

proof fn lemma_block_ready(
    cfg: CodingQuantCfg,
    tcoeffs: &[i32],
    scan: &[u16],
    t: QuantTable,
    tx_size: int,
    tx_class: int,
    plane_type: int,
    is_idtx: bool,
    wt: Option<Seq<u8>>,
    iwt: Option<Seq<u8>>,
    q0: Seq<i32>,
    d0: Seq<i32>,
    q1: Seq<i32>,
    d1: Seq<i32>,
    o: OptimizeCtx,
)
    requires
        quantized_block(
            (Kernel { dead_zone: false, saturate: true }),
            tcoeffs@,
            |rc: int| wt is None || visits(scan@, rc),
            t,
            TX_SCALE_TAB[tx_size] as nat,
            wt,
            iwt,
            q0,
            d0,
            q1,
            d1,
        ),
        is_block_ctx(
            o,
            cfg,
            tx_size,
            tx_class,
            plane_type,
            is_idtx,
            iwt,
            q1[scan@[0] as int] as int,
            eob_of(scan@, q1),
        ),
        cost_tables_wf(cfg.costs),
        table_wf(t),
        0 <= tx_size < 19,
        0 <= plane_type < 2,
        tcoeffs@.len() == txb_wide_spec(tx_size) * txb_high_spec(tx_size),
        tcoeffs@.len() <= q0.len(),
        tcoeffs@.len() <= d0.len(),
        forall|i: int| 0 <= i < tcoeffs@.len() ==> -0x8_0000 <= #[trigger] tcoeffs@[i] <= 0x8_0000,
        scan@.len() <= 1024,
        forall|i: int| 0 <= i < scan@.len() ==> (#[trigger] scan@[i]) < tcoeffs@.len(),
        wt is Some <==> iwt is Some,
        wt matches Some(w) ==> {
            &&& weights_paired(w, iwt->0)
            &&& tcoeffs@.len() == w.len()
            &&& w.len() == iwt->0.len()
        },
    ensures
        env_of(tcoeffs, scan, &t, &o).wf(),
        env_of(tcoeffs, scan, &t, &o).buffers_wf(q1, d1),
        mirrored(env_of(tcoeffs, scan, &t, &o), q1, d1),
{
    let k = Kernel { dead_zone: false, saturate: true };
    let visited = |rc: int| wt is None || visits(scan@, rc);
    let ls = TX_SCALE_TAB[tx_size] as nat;
    let e = env_of(tcoeffs, scan, &t, &o);
    lemma_txb_dims(tx_size);
    lemma_rdmult_range(cfg, plane_type);
    assert(e.wf());
    assert forall|ci: int| 0 <= ci < e.w() * e.h() implies #[trigger] q1[ci] > i32::MIN by {
        lemma_quantized_bounds(k, tcoeffs@, visited, t, ls, wt, iwt, q0, d0, q1, d1, ci);
    }
    assert forall|ci: int| 0 <= ci < e.w() * e.h() implies -0x8_0000 <= #[trigger] d1[ci] <= 0x8_0000 by {
        lemma_quantized_bounds(k, tcoeffs@, visited, t, ls, wt, iwt, q0, d0, q1, d1, ci);
    }
    assert forall|ci: int|
        #![trigger q1[ci]]
        0 <= ci < e.w() * e.h() implies e.recon(ci, abs_int(q1[ci] as int)) <= 0x8_0000 by {
        lemma_quantized_bounds(k, tcoeffs@, visited, t, ls, wt, iwt, q0, d0, q1, d1, ci);
    }
    lemma_quantized_mirror(k, tcoeffs@, visited, t, ls, wt, iwt, q0, d0, q1, d1);
}

/// Every reconstruction of a quantized block is the one a decoder builds
/// from its level, and the end of the block is exact.
pub proof fn still_block_mirrors_its_levels(
    cfg: CodingQuantCfg,
    tcoeffs: &[i32],
    scan: &[u16],
    t: QuantTable,
    tx_size: int,
    tx_class: int,
    plane_type: int,
    is_idtx: bool,
    wt: Option<Seq<u8>>,
    iwt: Option<Seq<u8>>,
    q0: Seq<i32>,
    d0: Seq<i32>,
    q: Seq<i32>,
    d: Seq<i32>,
    eob: int,
)
    requires
        still_block(
            cfg,
            tcoeffs,
            scan,
            t,
            tx_size,
            tx_class,
            plane_type,
            is_idtx,
            wt,
            iwt,
            q0,
            d0,
            q,
            d,
            eob,
        ),
        cost_tables_wf(cfg.costs),
        table_wf(t),
        0 <= tx_size < 19,
        0 <= tx_class,
        0 <= plane_type < 2,
        tcoeffs@.len() == txb_wide_spec(tx_size) * txb_high_spec(tx_size),
        tcoeffs@.len() <= q0.len(),
        tcoeffs@.len() <= d0.len(),
        forall|i: int| 0 <= i < tcoeffs@.len() ==> -0x8_0000 <= #[trigger] tcoeffs@[i] <= 0x8_0000,
        scan@.len() <= 1024,
        forall|i: int| 0 <= i < scan@.len() ==> (#[trigger] scan@[i]) < tcoeffs@.len(),
        scan_distinct(scan@),
        wt is Some <==> iwt is Some,
        wt matches Some(w) ==> {
            &&& weights_paired(w, iwt->0)
            &&& tcoeffs@.len() == w.len()
            &&& w.len() == iwt->0.len()
        },
    ensures
        forall|rc: int|
            0 <= rc < tcoeffs@.len() ==> (#[trigger] d[rc]) == with_sign(
                reconstructed(
                    abs_int(q[rc] as int),
                    weighted_step(t.dequant@, rc, inverse_weight_at(iwt, rc)),
                    TX_SCALE_TAB[tx_size] as nat,
                ),
                q[rc] as int,
            ),
        exact_end(scan@, q, eob),
{
    let ls = TX_SCALE_TAB[tx_size] as nat;
    let visited = |rc: int| wt is None || visits(scan@, rc);
    lemma_txb_dims(tx_size);
    if cfg.rdoq_level == 0 {
        let k = Kernel { dead_zone: true, saturate: true };
        lemma_quantized_mirror(k, tcoeffs@, visited, t, ls, wt, iwt, q0, d0, q, d);
        eob_is_exact_end(scan@, q);
    } else {
        let k = Kernel { dead_zone: false, saturate: true };
        let (q1, d1) = choose|q1: Seq<i32>, d1: Seq<i32>|
            #[trigger] quantized_block(k, tcoeffs@, visited, t, ls, wt, iwt, q0, d0, q1, d1)
                && optimized_block(
                cfg,
                tcoeffs,
                scan,
                t,
                tx_size,
                tx_class,
                plane_type,
                is_idtx,
                iwt,
                q1,
                d1,
                q,
                d,
                eob,
            );
        lemma_quantized_mirror(k, tcoeffs@, visited, t, ls, wt, iwt, q0, d0, q1, d1);
        eob_is_exact_end(scan@, q1);
        let eob1 = eob_of(scan@, q1);
        if eob1 > 0 {
            let o = choose|o: OptimizeCtx|
                {
                    let s = optimized(env_of(tcoeffs, scan, &t, &o), q1, d1, eob1);
                    &&& #[trigger] is_block_ctx(
                        o,
                        cfg,
                        tx_size,
                        tx_class,
                        plane_type,
                        is_idtx,
                        iwt,
                        q1[scan@[0] as int] as int,
                        eob1,
                    )
                    &&& q == s.q
                    &&& d == s.d
                    &&& eob == s.eob
                };
            let e = env_of(tcoeffs, scan, &t, &o);
            lemma_block_ready(
                cfg,
                tcoeffs,
                scan,
                t,
                tx_size,
                tx_class,
                plane_type,
                is_idtx,
                wt,
                iwt,
                q0,
                d0,
                q1,
                d1,
                o,
            );
            optimize_keeps_block_exact(e, q1, d1, eob1);
            assert(mirrored(e, q, d));
        }
    }
}

proof fn lemma_quantized_mirror(
    k: Kernel,
    coeffs: Seq<i32>,
    visited: spec_fn(int) -> bool,
    t: QuantTable,
    ls: nat,
    wt: Option<Seq<u8>>,
    iwt: Option<Seq<u8>>,
    q0: Seq<i32>,
    d0: Seq<i32>,
    q: Seq<i32>,
    d: Seq<i32>,
)
    requires
        quantized_block(k, coeffs, visited, t, ls, wt, iwt, q0, d0, q, d),
        table_wf(t),
        ls <= 4,
        forall|i: int| 0 <= i < coeffs.len() ==> -COEFF_LIMIT <= #[trigger] coeffs[i] <= COEFF_LIMIT,
        coeffs.len() <= q0.len(),
        coeffs.len() <= d0.len(),
    ensures
        forall|rc: int|
            #![trigger d[rc]]
            #![trigger q[rc]]
            0 <= rc < coeffs.len() ==> d[rc] == with_sign(
                reconstructed(
                    abs_int(q[rc] as int),
                    weighted_step(t.dequant@, rc, inverse_weight_at(iwt, rc)),
                    ls,
                ),
                q[rc] as int,
            ),
{
    assert forall|rc: int|
        #![trigger d[rc]]
        #![trigger q[rc]]
        0 <= rc < coeffs.len() implies d[rc] == with_sign(
        reconstructed(
            abs_int(q[rc] as int),
            weighted_step(t.dequant@, rc, inverse_weight_at(iwt, rc)),
            ls,
        ),
        q[rc] as int,
    ) by {
        let step = weighted_step(t.dequant@, rc, inverse_weight_at(iwt, rc));
        lemma_recon_zero(step, ls);
        lemma_level_fits(k, t, ls, weight_at(wt, rc), rc, coeffs[rc] as int);
    }
}

proof fn lemma_rdmult_range(cfg: CodingQuantCfg, plane_type: int)
    requires
        0 <= plane_type < 2,
    ensures
        forall|light: bool| 0 <= #[trigger] block_rdmult(cfg, plane_type, light) <= 0x5_0000_0000,
{
    assert forall|light: bool| 0 <= #[trigger] block_rdmult(cfg, plane_type, light) <= 0x5_0000_0000 by {
        let sharp = cfg.sharp_tx_active && plane_type == 0;
        let prm = plane_weight(cfg.allintra_rd_mult, false, plane_type);
        let rw = rate_percent(light, sharp);
        let n = max_int(clamp_int(cfg.sharpness as int, 0, 7), 2) as nat;
        lemma_rdmult_bound(cfg.lambda as int, prm, rw, n);
    }
}

proof fn lemma_rdmult_bound(lambda: int, prm: int, rw: int, n: nat)
    requires
        0 <= lambda <= 0xffff_ffff,
        10 <= prm <= 20,
        0 <= rw <= 100,
        2 <= n <= 7,
    ensures
        0 <= lambda * prm * rw <= 0x14_0000_0000 * 100,
        0 <= shr_int((lambda * prm * rw) / 100 + 2, n) <= 0x5_0000_0000,
{
    lemma_mul_upper_bound(lambda, 0xffff_ffff, prm, 20);
    lemma_mul_nonnegative(lambda, prm);
    lemma_mul_upper_bound(lambda * prm, 0x14_0000_0000, rw, 100);
    lemma_mul_nonnegative(lambda * prm, rw);
    let x = (lambda * prm * rw) / 100 + 2;
    assert(lambda * prm <= 0xffff_ffff * 20);
    lemma_mul_upper_bound(lambda * prm, 0x13_ffff_ffec, rw, 100);
    lemma2_to64();
    lemma_pow2_pos(n);
    if n > 2 {
        lemma_pow2_strictly_increases(2, n);
    }
    lemma_div_pos_is_pos(x, pow2(n) as int);
    lemma_div_is_ordered_by_denominator(x, 4, pow2(n) as int);
}

/// Where no noise is normalized, every reconstruction of a block that
/// [`quantize_inv_quantize_still`] leaves is the one a decoder builds from its
/// level, with the step of the quantizer index, and the end of the block is
/// exact.
pub proof fn quantized_blocks_mirror_their_levels<N: Fn(NoiseRequest) -> NormalizedTxb>(
    normalize: N,
    cfg: CodingQuantCfg,
    tcoeffs: &[i32],
    scan: &[u16],
    qindex: int,
    tx_size: int,
    tx_class: int,
    plane_type: int,
    is_idtx: bool,
    qm_level: u8,
    tables: QmTables,
    t: QuantTable,
    q0: Seq<i32>,
    d0: Seq<i32>,
    q: Seq<i32>,
    d: Seq<i32>,
    eob: int,
)
    requires
        block_quantized(
            normalize,
            cfg,
            tcoeffs,
            scan,
            qindex,
            tx_size,
            tx_class,
            plane_type,
            is_idtx,
            qm_level,
            tables,
            q0,
            d0,
            q,
            d,
            eob,
        ),
        !normalizes(cfg, plane_type, is_idtx, 1),
        is_quant_table(t, qindex, 8, 0),
        table_wf(t),
        cost_tables_wf(cfg.costs),
        0 <= tx_size < 19,
        0 <= tx_class,
        0 <= plane_type < 2,
        tcoeffs@.len() == txb_wide_spec(tx_size) * txb_high_spec(tx_size),
        tcoeffs@.len() <= q0.len(),
        tcoeffs@.len() <= d0.len(),
        forall|i: int| 0 <= i < tcoeffs@.len() ==> -0x8_0000 <= #[trigger] tcoeffs@[i] <= 0x8_0000,
        scan@.len() <= 1024,
        forall|i: int| 0 <= i < scan@.len() ==> (#[trigger] scan@[i]) < tcoeffs@.len(),
        scan_distinct(scan@),
        uses_matrices(is_idtx, qm_level) ==> qm_tables_wf(tables) && weights_paired(
            block_matrix(tables.wt@, is_idtx, qm_level, plane_type, tx_size)->0,
            block_matrix(tables.iwt@, is_idtx, qm_level, plane_type, tx_size)->0,
        ),
    ensures
        forall|rc: int|
            0 <= rc < tcoeffs@.len() ==> (#[trigger] d[rc]) == with_sign(
                reconstructed(
                    abs_int(q[rc] as int),
                    weighted_step(
                        t.dequant@,
                        rc,
                        inverse_weight_at(block_matrix(tables.iwt@, is_idtx, qm_level, plane_type, tx_size), rc),
                    ),
                    TX_SCALE_TAB[tx_size] as nat,
                ),
                q[rc] as int,
            ),
        exact_end(scan@, q, eob),
{
    let wt = block_matrix(tables.wt@, is_idtx, qm_level, plane_type, tx_size);
    let iwt = block_matrix(tables.iwt@, is_idtx, qm_level, plane_type, tx_size);
    let (made, q1, d1, eob1) = choose|made: QuantTable, q1: Seq<i32>, d1: Seq<i32>, eob1: int|
        {
            &&& is_quant_table(made, qindex, 8, 0)
            &&& still_block(
                cfg,
                tcoeffs,
                scan,
                made,
                tx_size,
                tx_class,
                plane_type,
                is_idtx,
                wt,
                iwt,
                q0,
                d0,
                q1,
                d1,
                eob1,
            )
            &&& #[trigger] finished_block(
                normalize,
                cfg,
                tcoeffs@,
                scan@,
                made,
                tx_size,
                plane_type,
                is_idtx,
                iwt,
                q1,
                d1,
                eob1,
                q,
                d,
                eob,
            )
        };
    quant_table_determined(made, t, qindex, 8, 0);
    lemma_matrix_size(tx_size);
    qm_layout_is_packed(tx_size);
    still_block_mirrors_its_levels(
        cfg,
        tcoeffs,
        scan,
        made,
        tx_size,
        tx_class,
        plane_type,
        is_idtx,
        wt,
        iwt,
        q0,
        d0,
        q,
        d,
        eob,
    );
}

} // verus!
