//! The coding resolution: whether a frame is coded narrower and upscaled by
//! the decoder, whether it is resized, and how the two are reconciled.

use vstd::prelude::*;

pub mod energy;
pub mod resize;
pub mod scaling;

use crate::tpl::model::QUANTIZER_TO_QINDEX;
use crate::types::FrameUpdateType;

verus! {

/// Numerator of every scale: a denominator of 8 is full resolution.
pub const SCALE_NUMERATOR: u8 = 8;

/// Number of denominators that scale.
pub const NUM_SR_SCALES: usize = 8;

/// How the denominator of a frame is chosen.
#[derive(Debug, Clone, Copy, PartialEq, Eq, Structural)]
pub enum SuperresMode {
    /// Never scaled.
    Unscaled,
    /// A configured denominator.
    Fixed,
    /// A pseudo-random denominator.
    Random,
    /// From the frame's horizontal detail, above a quantizer threshold.
    Qthresh,
    /// By coding the frame at several denominators.
    Auto,
}

/// Which denominators are tried.
#[derive(Debug, Clone, Copy, PartialEq, Eq, Structural)]
pub enum SuperresAutoSearch {
    /// The one that the horizontal detail suggests.
    Solo,
    /// That one and full resolution.
    Dual,
    /// All of them.
    All,
}

/// Configuration of the choice.
#[derive(Debug, Clone, Copy, PartialEq, Eq, Structural)]
pub struct SuperresConfig {
    pub mode: SuperresMode,
    /// Fixed denominator, of key frames and of others.
    pub denom: u8,
    pub kf_denom: u8,
    /// Quantizer thresholds, of frames without references and of others.
    pub qthres: u8,
    pub kf_qthres: u8,
    pub auto_search_type: SuperresAutoSearch,
}

/// What the choice reads of a frame.
#[derive(Debug, Clone, Copy, PartialEq, Eq, Structural)]
pub struct SuperresPicInput {
    pub allow_intrabc: bool,
    pub allow_screen_content_tools: bool,
    pub is_intra_only: bool,
    pub picture_qp: u8,
    pub update_type: FrameUpdateType,
    pub frames_to_key: i32,
}

/// The denominator of a frame and the schedule of those it is coded at.
#[derive(Debug, Clone, Copy, PartialEq, Eq)]
pub struct SuperresDecision {
    pub denom: u8,
    /// Number of denominators in the schedule; zero where there is none.
    pub total_recode_loop: u8,
    pub recode_loop: u8,
    /// The schedule.
    pub denom_array: [u8; 9],
}

/// Full resolution and no schedule.
pub open spec fn is_unscaled(d: SuperresDecision) -> bool {
    &&& d.denom == 8
    &&& d.total_recode_loop == 0
    &&& d.recode_loop == 0
    &&& d.denom_array@ == seq![0u8, 0, 0, 0, 0, 0, 0, 0, 0]
}

impl Default for SuperresDecision {
    fn default() -> (r: Self)
        ensures
            is_unscaled(r),
    {
        let r: SuperresDecision = SuperresDecision {
            denom: SCALE_NUMERATOR,
            total_recode_loop: 0,
            recode_loop: 0,
            denom_array: [0; 9],
        };
        assert(r.denom_array@ =~= seq![0u8, 0, 0, 0, 0, 0, 0, 0, 0]);
        r
    }
}

/// How a frame updates the reference buffers, from its place in the
/// hierarchy alone. In a flat hierarchy every frame but a key frame is a
/// leaf.
pub fn frame_update_type(is_key_frame: bool, hierarchical_levels: u8, temporal_layer_index: u8) -> (r: FrameUpdateType)
    ensures
        r == if is_key_frame {
            FrameUpdateType::Kf
        } else if hierarchical_levels == 0 {
            FrameUpdateType::Lf
        } else if temporal_layer_index == 0 {
            FrameUpdateType::Arf
        } else if temporal_layer_index == hierarchical_levels {
            FrameUpdateType::Lf
        } else {
            FrameUpdateType::IntnlArf
        },
{
    if is_key_frame {
        return FrameUpdateType::Kf;
    }
    if hierarchical_levels > 0 {
        if temporal_layer_index == 0 {
            FrameUpdateType::Arf
        } else if temporal_layer_index == hierarchical_levels {
            FrameUpdateType::Lf
        } else {
            FrameUpdateType::IntnlArf
        }
    } else {
        FrameUpdateType::Lf
    }
}

/// Place of a denominator among the cached scaled pictures, counted from full
/// resolution modulo 256.
pub fn denom_idx(scale_denom: u8) -> (r: u8)
    ensures
        r == (scale_denom - 8) % 256,
{
    if scale_denom >= SCALE_NUMERATOR {
        scale_denom - SCALE_NUMERATOR
    } else {
        248 + scale_denom
    }
}

/// The frame is coded at several denominators.
pub fn superres_in_recode_allowed(cfg: &SuperresConfig) -> (r: bool)
    ensures
        r == recodes(*cfg),
{
    cfg.mode == SuperresMode::Auto && cfg.auto_search_type != SuperresAutoSearch::Solo
}

/// The frame is coded at several denominators.
pub open spec fn recodes(cfg: SuperresConfig) -> bool {
    cfg.mode is Auto && cfg.auto_search_type !is Solo
}

/// `measure` always returns the same denominator.
pub open spec fn is_measure<F: Fn() -> u8>(measure: F) -> bool {
    &&& call_requires(measure, ())
    &&& forall|a: u8, b: u8| #[trigger] call_ensures(measure, (), a) && #[trigger] call_ensures(measure, (), b) ==> a == b
}

/// What `measure` returns: the denominator that the frame's horizontal
/// detail suggests.
pub open spec fn measured<F: Fn() -> u8>(measure: F) -> u8 {
    choose|a: u8| #[trigger] call_ensures(measure, (), a)
}

/// Frames of the kind may be scaled.
pub open spec fn scales_kind(update_type: FrameUpdateType, sr_kf: bool, sr_arf: bool) -> bool {
    (update_type is Kf && sr_kf) || (update_type is Arf && sr_arf)
}

/// Denominator for a frame whose detail suggests `suggested`: full resolution
/// for frames that are neither key frames nor base-layer references, or whose
/// kind is switched off, and at least a little scaled where full resolution
/// is tried anyway.
pub open spec fn denom_given(
    cfg: SuperresConfig,
    update_type: FrameUpdateType,
    sr_kf: bool,
    sr_arf: bool,
    suggested: u8,
) -> u8 {
    if scales_kind(update_type, sr_kf, sr_arf) {
        if recodes(cfg) && suggested < 9 {
            9
        } else {
            suggested
        }
    } else {
        8
    }
}

/// Denominator for a frame. `measure` is called only where the frame can be
/// scaled at all.
pub fn denom_for_qindex<F: Fn() -> u8>(
    cfg: &SuperresConfig,
    pic: &SuperresPicInput,
    sr_kf: bool,
    sr_arf: bool,
    measure: &F,
) -> (r: u8)
    requires
        scales_kind(pic.update_type, sr_kf, sr_arf) ==> is_measure(*measure),
    ensures
        r == denom_given(*cfg, pic.update_type, sr_kf, sr_arf, measured(*measure)),
        scales_kind(pic.update_type, sr_kf, sr_arf) ==> call_ensures(*measure, (), measured(*measure)),
{
    match pic.update_type {
        FrameUpdateType::Kf => {
            if !sr_kf {
                return SCALE_NUMERATOR;
            }
        },
        FrameUpdateType::Arf => {
            if !sr_arf {
                return SCALE_NUMERATOR;
            }
        },
        _ => {
            return SCALE_NUMERATOR;
        },
    }
    let denom: u8 = measure();
    proof {
        assert(call_ensures(*measure, (), measured(*measure)));
    }
    if superres_in_recode_allowed(cfg) && denom < SCALE_NUMERATOR + 1 {
        SCALE_NUMERATOR + 1
    } else {
        denom
    }
}

/// The state after a draw.
pub open spec fn lcg_next(state: int) -> int {
    (state * 1_103_515_245 + 12345) % 0x1_0000_0000
}

/// The number drawn from a state that has been advanced.
pub open spec fn lcg_value(state: int) -> int {
    state / 65536 % 2048
}

/// A denominator drawn from a state that has been advanced: from full
/// resolution to half the width.
pub open spec fn drawn_denom(state: int) -> int {
    lcg_value(state) % 9 + 8
}

pub(crate) fn lcg_rand16(state: &mut u32) -> (r: u32)
    ensures
        *final(state) == lcg_next(*old(state) as int),
        r == lcg_value(*final(state) as int),
{
    let next: u64 = (*state as u64 * 1_103_515_245 + 12345) % 0x1_0000_0000;
    *state = next as u32;
    (*state / 65536) % 2048
}

/// Quantizer index of a quantizer, which is capped at 63.
pub open spec fn qindex_of(qp: u8) -> int {
    QUANTIZER_TO_QINDEX[if qp < 63 {
        qp as int
    } else {
        63
    }] as int
}

fn qindex_for(qp: u8) -> (r: i32)
    ensures
        r == qindex_of(qp),
{
    QUANTIZER_TO_QINDEX[if qp < 63 {
        qp as usize
    } else {
        63
    }] as i32
}

/// The schedule of all denominators: those that scale, least first, and full
/// resolution last.
pub open spec fn full_schedule() -> Seq<u8> {
    seq![9u8, 10, 11, 12, 13, 14, 15, 16, 8]
}

/// The decision about a frame: its denominator and its schedule.
pub open spec fn is_decision(
    d: SuperresDecision,
    cfg: SuperresConfig,
    pic: SuperresPicInput,
    suggested: u8,
    seed: int,
) -> bool {
    let qindex = qindex_of(pic.picture_qp);
    let kf = pic.update_type is Kf;
    let denom = denom_given(cfg, pic.update_type, true, true, suggested);
    let plain = d.total_recode_loop == 0 && d.recode_loop == 0 && d.denom_array@ == seq![
        0u8,
        0,
        0,
        0,
        0,
        0,
        0,
        0,
        0,
    ];
    if pic.allow_intrabc {
        is_unscaled(d)
    } else {
        match cfg.mode {
            SuperresMode::Unscaled => is_unscaled(d),
            SuperresMode::Fixed => plain && d.denom == if kf {
                cfg.kf_denom
            } else {
                cfg.denom
            },
            SuperresMode::Random => plain && d.denom == drawn_denom(lcg_next(seed)),
            SuperresMode::Qthresh => {
                let threshold = qindex_of(
                    if pic.is_intra_only {
                        cfg.kf_qthres
                    } else {
                        cfg.qthres
                    },
                );
                if pic.allow_screen_content_tools || qindex <= threshold {
                    is_unscaled(d)
                } else {
                    plain && d.denom == denom
                }
            },
            SuperresMode::Auto => match cfg.auto_search_type {
                SuperresAutoSearch::Solo => if qindex <= 128 {
                    is_unscaled(d)
                } else {
                    plain && d.denom == denom
                },
                SuperresAutoSearch::Dual => if qindex <= 0 {
                    is_unscaled(d)
                } else if denom == 8 {
                    &&& d.denom == 8
                    &&& d.total_recode_loop == 0
                    &&& d.recode_loop == 0
                    &&& d.denom_array@ == seq![8u8, 0, 0, 0, 0, 0, 0, 0, 0]
                } else {
                    &&& d.denom == denom
                    &&& d.total_recode_loop == 2
                    &&& d.recode_loop == 0
                    &&& d.denom_array@ == seq![denom, 8, 0, 0, 0, 0, 0, 0, 0]
                },
                SuperresAutoSearch::All => if qindex <= 0 || !(kf || pic.update_type is Arf) {
                    is_unscaled(d)
                } else {
                    &&& d.denom == 9
                    &&& d.total_recode_loop == 9
                    &&& d.recode_loop == 0
                    &&& d.denom_array@ == full_schedule()
                },
            },
        }
    }
}

/// The detail of the frame is measured: its quantizer lies above the threshold
/// of its mode, and frames of its kind may be scaled.
pub open spec fn measures(cfg: SuperresConfig, pic: SuperresPicInput) -> bool {
    let qindex = qindex_of(pic.picture_qp);
    &&& !pic.allow_intrabc
    &&& scales_kind(pic.update_type, true, true)
    &&& match cfg.mode {
        SuperresMode::Qthresh => !pic.allow_screen_content_tools && qindex > qindex_of(
            if pic.is_intra_only {
                cfg.kf_qthres
            } else {
                cfg.qthres
            },
        ),
        SuperresMode::Auto => match cfg.auto_search_type {
            SuperresAutoSearch::Solo => qindex > 128,
            SuperresAutoSearch::Dual => qindex > 0,
            SuperresAutoSearch::All => false,
        },
        _ => false,
    }
}

/// The generator is advanced.
pub open spec fn draws(cfg: SuperresConfig, pic: SuperresPicInput) -> bool {
    cfg.mode is Random && !pic.allow_intrabc
}

/// Decides the denominator of a frame and the schedule of those it is coded
/// at. Each pseudo-random choice advances `seed` once.
pub fn calc_superres_params<F: Fn() -> u8>(
    cfg: &SuperresConfig,
    pic: &SuperresPicInput,
    seed: &mut u32,
    measure: &F,
) -> (d: SuperresDecision)
    requires
        measures(*cfg, *pic) ==> is_measure(*measure),
    ensures
        is_decision(d, *cfg, *pic, measured(*measure), *old(seed) as int),
        measures(*cfg, *pic) ==> call_ensures(*measure, (), measured(*measure)),
        *final(seed) == if draws(*cfg, *pic) {
            lcg_next(*old(seed) as int)
        } else {
            *old(seed) as int
        },
{
    let mut out: SuperresDecision = SuperresDecision::default();
    if pic.allow_intrabc {
        return out;
    }
    let qindex: i32 = qindex_for(pic.picture_qp);
    match cfg.mode {
        SuperresMode::Unscaled => {},
        SuperresMode::Fixed => {
            out.denom = if pic.update_type == FrameUpdateType::Kf {
                cfg.kf_denom
            } else {
                cfg.denom
            };
        },
        SuperresMode::Random => {
            out.denom = (lcg_rand16(seed) % 9 + 8) as u8;
        },
        SuperresMode::Qthresh => {
            if pic.allow_screen_content_tools {
                return out;
            }
            let qthresh: i32 = qindex_for(
                if pic.is_intra_only {
                    cfg.kf_qthres
                } else {
                    cfg.qthres
                },
            );
            if qindex > qthresh {
                out.denom = denom_for_qindex(cfg, pic, true, true, measure);
            }
        },
        SuperresMode::Auto => {
            let qthresh: i32 = if cfg.auto_search_type == SuperresAutoSearch::Solo {
                128
            } else {
                0
            };
            if qindex <= qthresh {
                return out;
            }
            match cfg.auto_search_type {
                SuperresAutoSearch::Solo => {
                    out.denom = denom_for_qindex(cfg, pic, true, true, measure);
                },
                SuperresAutoSearch::Dual => {
                    let denom: u8 = denom_for_qindex(cfg, pic, true, true, measure);
                    if denom != SCALE_NUMERATOR {
                        out.denom_array = [denom, SCALE_NUMERATOR, 0, 0, 0, 0, 0, 0, 0];
                        out.denom = denom;
                        out.total_recode_loop = 2;
                        assert(out.denom_array@ =~= seq![denom, 8u8, 0, 0, 0, 0, 0, 0, 0]);
                    } else {
                        out.denom_array = [SCALE_NUMERATOR, 0, 0, 0, 0, 0, 0, 0, 0];
                        assert(out.denom_array@ =~= seq![8u8, 0, 0, 0, 0, 0, 0, 0, 0]);
                    }
                },
                SuperresAutoSearch::All => {
                    if pic.update_type == FrameUpdateType::Kf || pic.update_type == FrameUpdateType::Arf {
                        out.denom_array = [9, 10, 11, 12, 13, 14, 15, 16, 8];
                        out.denom = 9;
                        out.total_recode_loop = SCALE_NUMERATOR + 1;
                        assert(out.denom_array@ =~= full_schedule());
                    }
                },
            }
        },
    }
    out
}

/// Intra block copy and scaling exclude each other.
pub proof fn block_copy_forbids_scaling(
    d: SuperresDecision,
    cfg: SuperresConfig,
    pic: SuperresPicInput,
    suggested: u8,
    seed: int,
)
    requires
        pic.allow_intrabc,
        is_decision(d, cfg, pic, suggested, seed),
    ensures
        is_unscaled(d),
{
}

/// A frame is never coded above full resolution nor below half its width, as
/// long as no configured or suggested denominator is.
pub proof fn denominators_stay_in_range(
    d: SuperresDecision,
    cfg: SuperresConfig,
    pic: SuperresPicInput,
    suggested: u8,
    seed: int,
)
    requires
        8 <= cfg.denom <= 16,
        8 <= cfg.kf_denom <= 16,
        8 <= suggested <= 16,
        is_decision(d, cfg, pic, suggested, seed),
    ensures
        8 <= d.denom <= 16,
{
}

/// A schedule of more than one denominator starts with the chosen one and
/// ends at full resolution.
pub proof fn schedules_end_at_full_resolution(
    d: SuperresDecision,
    cfg: SuperresConfig,
    pic: SuperresPicInput,
    suggested: u8,
    seed: int,
)
    requires
        d.total_recode_loop > 0,
        is_decision(d, cfg, pic, suggested, seed),
    ensures
        1 < d.total_recode_loop <= 9,
        d.denom_array@[0] == d.denom,
        d.denom_array@[d.total_recode_loop - 1] == 8,
        forall|i: int| 0 <= i < d.total_recode_loop - 1 ==> #[trigger] d.denom_array@[i] != 8,
{
}

} // verus!
