//! How strongly a frame is filtered, and what is filtered at all.

use vstd::prelude::*;

use crate::arith::{abs_int, clamp_i32, clamp_int, div_trunc, low_i32, low_u16, max_int, min_int, signed_u32, wrap_i32};
use crate::temporal_filtering::weights::{calculate_tf_shift_factor, shift_of_error};

verus! {

/// From this quantizer on the decay grows with its square.
pub const TF_QINDEX_CUTOFF: i32 = 128;

/// Quantizers below this decay faster.
pub const TF_Q_DECAY_THRESHOLD: i32 = 20;

/// Mean variance below which a frame counts as flat.
pub const VQ_PIC_AVG_VARIANCE_TH: u16 = 1000;

/// Quantizer offsets per table row.
pub const FIXED_QP_OFFSET_COUNT: usize = 6;

/// Quantizer offsets in percent: first for more than four hierarchy levels,
/// then for four or fewer.
pub const PERCENTS: [[i32; 6]; 2] = [[75, 70, 60, 20, 15, 0], [76, 60, 30, 15, 8, 4]];

/// Chroma noise exceeds luma noise.
pub open spec fn chroma_noisy(noise: Seq<i32>) -> bool {
    noise[0] < noise[1] || noise[0] < noise[2]
}

/// Whether chroma is filtered: always at level 1, and at level 2 where it is
/// noisier than luma.
pub fn init_tf_chroma(chroma_lvl: u8, noise_levels_log1p_fp16: &[i32; 3]) -> (r: bool)
    ensures
        r == (chroma_lvl == 1 || (chroma_lvl == 2 && chroma_noisy(noise_levels_log1p_fp16@))),
{
    let noisy: bool = noise_levels_log1p_fp16[0] < noise_levels_log1p_fp16[1] || noise_levels_log1p_fp16[0]
        < noise_levels_log1p_fp16[2];
    match chroma_lvl {
        1 => true,
        2 => noisy,
        _ => false,
    }
}

/// Displacement from which on a prediction loses weight.
pub fn init_tf_mv_dist_th(aligned_width: u32, aligned_height: u32) -> (r: u32)
    requires
        wrap_i32(min_int(aligned_height as int, aligned_width as int)) - 150 >= i32::MIN,
    ensures
        r == clamp_int(wrap_i32(min_int(aligned_height as int, aligned_width as int)) - 150, 64, 450),
{
    let side: u32 = if aligned_height <= aligned_width {
        aligned_height
    } else {
        aligned_width
    };
    clamp_i32(signed_u32(side) - 150, 64, 450) as u32
}

/// Which planes of the unfiltered frame are kept.
#[derive(Debug, Clone, Copy, PartialEq, Eq, Structural)]
pub enum SrcSaveChoice {
    AllPlanes,
    LumaOnly,
    Nothing,
}

/// Which planes of the unfiltered frame are kept: all for a measurement or a
/// second encoding, luma alone for an intra slice.
pub fn choose_src_save(
    compute_psnr: bool,
    compute_ssim: bool,
    superres_mode_is_auto: bool,
    superres_search_is_dual_or_all: bool,
    frame_update_is_kf_or_arf: bool,
    slice_is_i: bool,
) -> (r: SrcSaveChoice)
    ensures
        ({
            let recode = superres_mode_is_auto && superres_search_is_dual_or_all && frame_update_is_kf_or_arf;
            &&& r is AllPlanes <==> compute_psnr || compute_ssim || recode
            &&& r is LumaOnly <==> !(compute_psnr || compute_ssim || recode) && slice_is_i
        }),
{
    let recode: bool = superres_mode_is_auto && superres_search_is_dual_or_all && frame_update_is_kf_or_arf;
    if compute_psnr || compute_ssim || recode {
        SrcSaveChoice::AllPlanes
    } else if slice_is_i {
        SrcSaveChoice::LumaOnly
    } else {
        SrcSaveChoice::Nothing
    }
}

/// Whether the low-delay filter runs.
pub fn init_tf_driver_is_low_delay(pred_structure_is_low_delay: bool) -> (r: bool)
    ensures
        r == pred_structure_is_low_delay,
{
    pred_structure_is_low_delay
}

/// How far filtering has changed the last intra frame, against the noise, in
/// percent.
pub open spec fn change_ratio(diff: int, noise: int) -> int {
    if noise != 0 {
        div_trunc(diff * 100, noise)
    } else {
        0
    }
}

/// Decay controls of the three planes: weakest for a flat noisy frame where
/// sharpness matters; otherwise luma is raised where filtering has changed the
/// last intra frame much.
pub fn derive_decay_control(
    vq_sharpness_tf: bool,
    is_noise_level: bool,
    calculate_variance: bool,
    pic_avg_variance: u16,
    slice_is_i: bool,
    filt_to_unfilt_diff: i32,
    noise_levels_log1p_fp16: &[i32; 3],
) -> (r: [i32; 3])
    requires
        i32::MIN <= filt_to_unfilt_diff * 100 <= i32::MAX,
    ensures
        ({
            let sharp = vq_sharpness_tf && is_noise_level && calculate_variance && pic_avg_variance
                < VQ_PIC_AVG_VARIANCE_TH;
            let raised = !slice_is_i && change_ratio(
                filt_to_unfilt_diff as int,
                noise_levels_log1p_fp16[0] as int,
            ) > 150;
            &&& r[0] == (if sharp {
                1int
            } else if raised {
                4
            } else {
                3
            })
            &&& r[1] == (if sharp {
                1int
            } else {
                6
            })
            &&& r[2] == r[1]
        }),
{
    if vq_sharpness_tf && is_noise_level && calculate_variance && pic_avg_variance < VQ_PIC_AVG_VARIANCE_TH {
        return [1, 1, 1];
    }
    let mut luma: i32 = 3;
    if !slice_is_i {
        let noise: i32 = noise_levels_log1p_fp16[0];
        let change: i32 = filt_to_unfilt_diff * 100;
        let ratio: i32 = if noise != 0 {
            proof {
                lemma_quotient_fits(change as int, noise as int);
            }
            change / noise
        } else {
            0
        };
        if ratio > 150 {
            luma = 4;
        }
    }
    [luma, 6, 6]
}

proof fn lemma_quotient_fits(a: int, b: int)
    requires
        b != 0,
        -0x8000_0000 < a < 0x8000_0000,
    ensures
        -0x8000_0000 < div_trunc(a, b) < 0x8000_0000,
{
    let m = if a >= 0 {
        a
    } else {
        -a
    };
    vstd::arithmetic::div_mod::lemma_fundamental_div_mod(m, b);
    let q = m / b;
    let r = m % b;
    assert(-m <= q <= m) by (nonlinear_arith)
        requires
            m == b * q + r,
            0 <= r,
            r < b || r < -b,
            b != 0,
            m >= 0,
    ;
}

/// Slot of the quantizer offset of a frame; -1 for one that nothing refers to.
pub fn tf_qp_offset_idx(is_ref: bool, idr_flag: bool, temporal_layer_index: i32) -> (r: i32)
    requires
        temporal_layer_index < i32::MAX,
    ensures
        r == (if !is_ref {
            -1
        } else if idr_flag {
            0
        } else {
            min_int(temporal_layer_index + 1, 5)
        }),
{
    if !is_ref {
        -1
    } else if idr_flag {
        0
    } else if temporal_layer_index + 1 < 5 {
        temporal_layer_index + 1
    } else {
        5
    }
}

/// Quantizer the filter strength aims at: lowered by the percentage of the
/// slot, not below zero.
pub open spec fn target_q(q: int, slot: int, levels: int) -> int {
    if slot == -1 {
        q
    } else {
        max_int(
            q - div_trunc(
                q * PERCENTS[if levels <= 4 {
                    1int
                } else {
                    0
                }][slot],
                100,
            ),
            0,
        )
    }
}

/// The quantizer that the filter strength aims at can be computed.
pub open spec fn target_fits(q: int, slot: int, levels: int) -> bool {
    slot != -1 ==> i32::MIN <= q * PERCENTS[if levels <= 4 {
        1int
    } else {
        0
    }][slot] <= i32::MAX
}

/// Quantizer the filter strength aims at.
pub fn tf_q_val_target_fp8(q_val_fp8: i32, offset_idx: i32, hierarchical_levels: u32) -> (r: i32)
    requires
        -1 <= offset_idx < 6,
        target_fits(q_val_fp8 as int, offset_idx as int, hierarchical_levels as int),
    ensures
        r == target_q(q_val_fp8 as int, offset_idx as int, hierarchical_levels as int),
{
    if offset_idx == -1 {
        return q_val_fp8;
    }
    let row: usize = if hierarchical_levels <= 4 {
        1
    } else {
        0
    };
    let pct: i32 = PERCENTS[row][offset_idx as usize];
    proof {
        lemma_percent(row as int, offset_idx as int);
        lemma_part(q_val_fp8 as int, pct as int);
    }
    let v: i32 = q_val_fp8 - (q_val_fp8 * pct) / 100;
    if v > 0 {
        v
    } else {
        0
    }
}

/// A part of a number is no further from zero than the number.
proof fn lemma_part(q: int, pct: int)
    requires
        0 <= pct <= 76,
    ensures
        q >= 0 ==> 0 <= div_trunc(q * pct, 100) <= q,
        q <= 0 ==> q <= div_trunc(q * pct, 100) <= 0,
{
    let m = abs_int(q);
    assert(0 <= m * pct <= 76 * m) by (nonlinear_arith)
        requires
            0 <= pct <= 76,
            0 <= m,
    ;
    assert((-m) * pct == -(m * pct)) by (nonlinear_arith);
}

proof fn lemma_percent(row: int, slot: int)
    requires
        0 <= row < 2,
        0 <= slot < 6,
    ensures
        0 <= PERCENTS[row][slot] <= 76,
{
    assert(row == 0 || row == 1);
    assert(slot == 0 || slot == 1 || slot == 2 || slot == 3 || slot == 4 || slot == 5);
}

/// Decay of a quantizer: quadratic from the cutoff on, linear and at least
/// one below; the two do not meet.
pub fn tf_q_decay_fp8(q: i32) -> (r: u32)
    requires
        q <= 46340,
    ensures
        r == (if q >= 128 {
            (q * q) / 32
        } else {
            max_int(wrap_i32(4 * q), 1)
        }),
{
    if q >= TF_QINDEX_CUTOFF {
        assert(0 <= q * q <= 0x7fff_ffff) by (nonlinear_arith)
            requires
                0 <= q <= 46340,
        ;
        ((q * q) / 32) as u32
    } else {
        let v: i32 = low_i32(4 * q as i64);
        if v > 1 {
            v as u32
        } else {
            1
        }
    }
}

/// Weight shifts of a frame.
#[derive(Debug, Clone, Copy, PartialEq, Eq, Structural)]
pub struct TfShiftDecision {
    pub shift_factor: u8,
    /// Shift that key frames use.
    pub kf_shift_factor: u8,
    /// The frame is not filtered.
    pub disable_on_this_frame: bool,
}

/// Weight shifts of a frame: from the error of the block where the strength
/// adapts, from the configured strength otherwise. A key frame whose shift is
/// the largest there is, is not filtered.
pub fn derive_tf_shift(
    enable_tf: u8,
    tf_strength: u8,
    vq_sharpness_tf: bool,
    frame_update_is_kf: bool,
    tf_64x64_block_error: u64,
) -> (r: TfShiftDecision)
    requires
        enable_tf <= 1 && vq_sharpness_tf ==> tf_strength != 15,
    ensures
        enable_tf > 1 ==> {
            &&& r.shift_factor == shift_of_error(tf_64x64_block_error as int)
            &&& r.kf_shift_factor == min_int(r.shift_factor + 1, 14)
        },
        enable_tf <= 1 ==> {
            &&& r.shift_factor == (14 - tf_strength) % 256
            &&& r.kf_shift_factor == (if vq_sharpness_tf {
                min_int(r.shift_factor + 1, 14)
            } else {
                r.shift_factor as int
            })
        },
        r.disable_on_this_frame == (frame_update_is_kf && r.kf_shift_factor == 14),
{
    let (shift, kf): (u8, u8) = if enable_tf > 1 {
        let adaptive: u8 = calculate_tf_shift_factor(tf_64x64_block_error);
        (
            adaptive,
            if adaptive + 1 < 14 {
                adaptive + 1
            } else {
                14
            },
        )
    } else {
        let shift: u8 = 14u8.wrapping_sub(tf_strength);
        (
            shift,
            if !vq_sharpness_tf {
                shift
            } else if shift + 1 < 14 {
                shift + 1
            } else {
                14
            },
        )
    };
    TfShiftDecision {
        shift_factor: shift,
        kf_shift_factor: kf,
        disable_on_this_frame: frame_update_is_kf && kf == 14,
    }
}

/// Smallest and largest search area, as width and height.
#[derive(Debug, Clone, Copy, PartialEq, Eq)]
pub struct SearchAreaMinMax {
    pub sa_min: (u16, u16),
    pub sa_max: (u16, u16),
}

impl Default for SearchAreaMinMax {
    fn default() -> (r: Self)
        ensures
            r == (SearchAreaMinMax { sa_min: (0, 0), sa_max: (0, 0) }),
    {
        SearchAreaMinMax { sa_min: (0, 0), sa_max: (0, 0) }
    }
}

fn times(x: u16, f: u32) -> (r: u16)
    requires
        f <= 4,
    ensures
        r == (x * f) % 0x1_0000,
{
    proof {
        vstd::arithmetic::mul::lemma_mul_upper_bound(x as int, 0xffff, f as int, 4);
    }
    low_u16(x as u32 * f)
}

/// Search areas of the filter: as configured at level 0; at level 1 the
/// smallest twice and the largest four times as large on each side; none at
/// other levels.
pub fn set_hme_search_params_mctf(default_tf: SearchAreaMinMax, hme_search_level: u8) -> (r: Option<
    SearchAreaMinMax,
>)
    ensures
        r is Some <==> hme_search_level <= 1,
        hme_search_level == 0 ==> r == Some(default_tf),
        hme_search_level == 1 ==> {
            &&& (r->0).sa_min.0 == (default_tf.sa_min.0 * 2) % 0x1_0000
            &&& (r->0).sa_min.1 == (default_tf.sa_min.1 * 2) % 0x1_0000
            &&& (r->0).sa_max.0 == (default_tf.sa_max.0 * 4) % 0x1_0000
            &&& (r->0).sa_max.1 == (default_tf.sa_max.1 * 4) % 0x1_0000
        },
{
    match hme_search_level {
        0 => Some(default_tf),
        1 => Some(
            SearchAreaMinMax {
                sa_min: (times(default_tf.sa_min.0, 2), times(default_tf.sa_min.1, 2)),
                sa_max: (times(default_tf.sa_max.0, 4), times(default_tf.sa_max.1, 4)),
            },
        ),
        _ => None,
    }
}

} // verus!
