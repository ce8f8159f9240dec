//! The frame-level rate settings of the two ways of coding: still pictures,
//! where every frame is coded alone, and video.

use vstd::prelude::*;

use crate::rdoq::{rdoq_level_allintra, CoeffLvl};

verus! {

/// Fastest preset of still pictures.
pub const M9: u8 = 9;

/// Slowest video preset with full rate-distortion optimized quantization.
pub const M10: u8 = 10;

/// Fastest preset of video.
pub const M11: u8 = 11;

/// Rate estimation level of video.
pub const RATE_EST_LEVEL_DEFAULT: u8 = 1;

/// The way of coding.
#[derive(Debug, Clone, Copy, PartialEq, Eq, Structural)]
pub enum ScArm {
    /// Still pictures.
    Allintra,
    /// Video.
    Video { is_islice: bool },
}

/// The preset that is in force: each way of coding has a fastest one.
pub fn eff_enc_mode(arm: ScArm, preset: u8) -> (r: u8)
    ensures
        r == match arm {
            ScArm::Allintra => if preset < 9 {
                preset
            } else {
                9
            },
            ScArm::Video { .. } => if preset < 11 {
                preset
            } else {
                11
            },
        },
{
    let cap: u8 = match arm {
        ScArm::Allintra => M9,
        ScArm::Video { .. } => M11,
    };
    if preset < cap {
        preset
    } else {
        cap
    }
}

/// A preset as a signed number, with a fallback beyond its range.
pub open spec fn signed_mode(enc_mode: u8, fallback: i8) -> i8 {
    if enc_mode <= 127 {
        enc_mode as i8
    } else {
        fallback
    }
}

fn signed_mode_of(enc_mode: u8, fallback: i8) -> (r: i8)
    ensures
        r == signed_mode(enc_mode, fallback),
{
    if enc_mode <= 127 {
        enc_mode as i8
    } else {
        fallback
    }
}

/// Optimized quantization level of a still picture.
pub open spec fn still_rdoq_level(enc_mode: u8, coeff_lvl: CoeffLvl) -> u8 {
    if enc_mode <= 5 {
        1
    } else {
        match coeff_lvl {
            CoeffLvl::High => 0,
            CoeffLvl::Normal => 3,
            _ => 2,
        }
    }
}

/// Optimized quantization level of video.
pub open spec fn video_rdoq_level(enc_mode: u8) -> u8 {
    if signed_mode(enc_mode, 10) <= 10 {
        1
    } else {
        2
    }
}

/// Optimized quantization level. The coefficient class counts for still
/// pictures only.
pub fn rdoq_level(arm: ScArm, enc_mode: u8, coeff_lvl: CoeffLvl) -> (r: u8)
    ensures
        r == match arm {
            ScArm::Allintra => still_rdoq_level(enc_mode, coeff_lvl),
            ScArm::Video { .. } => video_rdoq_level(enc_mode),
        },
{
    match arm {
        ScArm::Allintra => rdoq_level_allintra(signed_mode_of(enc_mode, 127), coeff_lvl),
        ScArm::Video { .. } => {
            if signed_mode_of(enc_mode, M10 as i8) <= M10 as i8 {
                1
            } else {
                2
            }
        },
    }
}

/// Rate estimation level.
pub fn rate_est_level(arm: ScArm, enc_mode: u8) -> (r: u8)
    ensures
        r == match arm {
            ScArm::Allintra => if enc_mode <= 6 {
                1u8
            } else if enc_mode <= 8 {
                4u8
            } else {
                0u8
            },
            ScArm::Video { .. } => 1u8,
        },
{
    match arm {
        ScArm::Allintra => {
            if enc_mode <= 6 {
                1
            } else if enc_mode <= 8 {
                4
            } else {
                0
            }
        },
        ScArm::Video { .. } => RATE_EST_LEVEL_DEFAULT,
    }
}

/// `ladder` is a function of a preset and of whether a picture is coded
/// without references and in the base layer, defined everywhere.
pub open spec fn is_ladder<F: Fn(i8, bool, bool) -> u8>(ladder: F) -> bool {
    &&& forall|m: i8, i: bool, b: bool| #[trigger] call_requires(ladder, (m, i, b))
    &&& forall|m: i8, i: bool, b: bool, x: u8, y: u8| #[trigger]
        call_ensures(ladder, (m, i, b), x) && #[trigger] call_ensures(ladder, (m, i, b), y) ==> x == y
}

/// What `ladder` returns.
pub open spec fn rung<F: Fn(i8, bool, bool) -> u8>(ladder: F, m: i8, is_islice: bool, is_base: bool) -> u8 {
    choose|x: u8| #[trigger] call_ensures(ladder, (m, is_islice, is_base), x)
}

/// Symbol adaptation level of a still picture.
pub open spec fn still_cdf_level(m: i8) -> u8 {
    if m <= 3 {
        1
    } else if m <= 6 {
        2
    } else {
        0
    }
}

/// Symbol adaptation level. Still pictures have a ladder of their own; that
/// of video is given.
pub fn update_cdf_level<F: Fn(i8, bool, bool) -> u8>(arm: ScArm, enc_mode: u8, is_base: bool, ladder: &F) -> (r: u8)
    requires
        arm is Video ==> is_ladder(*ladder),
    ensures
        r == match arm {
            ScArm::Allintra => still_cdf_level(signed_mode(enc_mode, 11)),
            ScArm::Video { is_islice } => rung(*ladder, signed_mode(enc_mode, 11), is_islice, is_base),
        },
        arm matches ScArm::Video { is_islice } ==> call_ensures(
            *ladder,
            (signed_mode(enc_mode, 11), is_islice, is_base),
            r,
        ),
{
    let m: i8 = signed_mode_of(enc_mode, M11 as i8);
    match arm {
        ScArm::Allintra => {
            if m <= 3 {
                1
            } else if m <= 6 {
                2
            } else {
                0
            }
        },
        ScArm::Video { is_islice } => {
            let r: u8 = ladder(m, is_islice, is_base);
            proof {
                assert(call_ensures(*ladder, (m, is_islice, is_base), rung(*ladder, m, is_islice, is_base)));
            }
            r
        },
    }
}

/// What a rate estimation level stands for: how closely coefficient rates are
/// estimated, and whether with the real contexts.
pub fn rate_est_ctrls(rate_est_level: u8) -> (r: (u8, bool))
    ensures
        r == match rate_est_level {
            0u8 => (0u8, false),
            1u8 => (1u8, true),
            2u8 => (1u8, false),
            _ => (2u8, false),
        },
{
    match rate_est_level {
        0 => (0, false),
        1 => (1, true),
        2 => (1, false),
        _ => (2, false),
    }
}

/// On presets up to 5 the two ways of coding quantize alike; beyond, still
/// pictures go by their coefficients and never use level 1, which video uses
/// up to preset 10.
pub proof fn the_ways_of_coding_part_at_preset_six(enc_mode: u8, coeff_lvl: CoeffLvl)
    ensures
        enc_mode <= 5 ==> still_rdoq_level(enc_mode, coeff_lvl) == video_rdoq_level(enc_mode),
        enc_mode > 5 ==> still_rdoq_level(enc_mode, coeff_lvl) != 1,
        enc_mode <= 10 ==> video_rdoq_level(enc_mode) == 1,
{
}

/// Still pictures past preset 5 are quantized plainly where they are busy, and
/// optimized otherwise, quiet ones over more of a block than ordinary ones.
/// Video past preset 10 is optimized over less of a block than before.
pub proof fn quantization_levels_go_by_preset_and_class(enc_mode: u8)
    ensures
        enc_mode <= 5 ==> (forall|c: CoeffLvl| still_rdoq_level(enc_mode, c) == 1),
        enc_mode > 5 ==> {
            &&& still_rdoq_level(enc_mode, CoeffLvl::High) == 0
            &&& still_rdoq_level(enc_mode, CoeffLvl::Normal) == 3
            &&& still_rdoq_level(enc_mode, CoeffLvl::Low) == 2
            &&& still_rdoq_level(enc_mode, CoeffLvl::VLow) == 2
        },
        10 < enc_mode <= 127 ==> video_rdoq_level(enc_mode) == 2,
        enc_mode > 127 ==> video_rdoq_level(enc_mode) == 1,
{
}

/// Symbols of still pictures adapt fully up to preset 3, in part up to preset
/// 6, and not at all beyond.
pub proof fn adaptation_ends_past_preset_six(m: i8)
    ensures
        still_cdf_level(m) == 1 <==> m <= 3,
        still_cdf_level(m) == 2 <==> 4 <= m <= 6,
        still_cdf_level(m) == 0 <==> m >= 7,
        forall|mode: u8, fallback: i8|
            #![trigger signed_mode(mode, fallback)]
            signed_mode(mode, fallback) == mode || (mode > 127 && signed_mode(mode, fallback) == fallback),
{
}

} // verus!
