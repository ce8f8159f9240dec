//! Speed settings of the two ways of coding.

use svtav1_encoder::rate_arm::{
    eff_enc_mode, rate_est_ctrls, rate_est_level, rdoq_level, update_cdf_level, ScArm,
};
use svtav1_encoder::rdoq::{rdoq_level_allintra, CoeffLvl};

const LEVELS: [CoeffLvl; 4] = [CoeffLvl::VLow, CoeffLvl::Low, CoeffLvl::Normal, CoeffLvl::High];

/// The ladder of intra slices.
fn ladder(enc_mode: i8, _is_islice: bool, _is_base: bool) -> u8 {
    if enc_mode <= 8 {
        1
    } else {
        0
    }
}

fn old_flattened_eff_mode(preset: u8) -> u8 {
    preset.min(9)
}

fn old_flattened_chain_gate(preset: u8) -> bool {
    matches!(preset, 0..=6)
}

fn old_flattened_rate_est_pair(preset: u8) -> (u8, bool) {
    match preset {
        0..=6 => (1, true),
        7 | 8 => (2, false),
        _ => (0, false),
    }
}

#[test]
fn allintra_flattening_matches_the_ladder() {
    for preset in 0u8..=13 {
        let eff = eff_enc_mode(ScArm::Allintra, preset);
        assert_eq!(eff, old_flattened_eff_mode(preset), "eff mode p{preset}");
        assert_eq!(
            update_cdf_level(ScArm::Allintra, eff, true, &ladder) != 0,
            old_flattened_chain_gate(preset),
            "chain gate p{preset}"
        );
        assert_eq!(
            rate_est_ctrls(rate_est_level(ScArm::Allintra, eff)),
            old_flattened_rate_est_pair(preset),
            "rate-est pair p{preset}"
        );
        for lvl in LEVELS {
            assert_eq!(
                rdoq_level(ScArm::Allintra, eff, lvl),
                rdoq_level_allintra(old_flattened_eff_mode(preset) as i8, lvl),
                "rdoq p{preset} {lvl:?}"
            );
        }
    }
}

#[test]
fn video_arm_ladders() {
    let arm = ScArm::Video { is_islice: true };
    for preset in 0u8..=13 {
        let eff = eff_enc_mode(arm, preset);
        assert_eq!(eff, preset.min(11), "eff mode p{preset}");
        let want_rdoq = if eff <= 10 { 1 } else { 2 };
        for lvl in LEVELS {
            assert_eq!(rdoq_level(arm, eff, lvl), want_rdoq, "rdoq p{preset}");
        }
        assert_eq!(rate_est_level(arm, eff), 1, "rate_est p{preset}");
        assert_eq!(rate_est_ctrls(1), (1, true));
        assert_eq!(update_cdf_level(arm, eff, true, &ladder) != 0, preset <= 8, "chain gate p{preset}");
    }
}

#[test]
fn the_arms_actually_differ() {
    let vid = ScArm::Video { is_islice: true };
    for preset in [7u8, 8] {
        let ea = eff_enc_mode(ScArm::Allintra, preset);
        let ev = eff_enc_mode(vid, preset);
        assert_eq!(update_cdf_level(ScArm::Allintra, ea, true, &ladder), 0);
        assert_eq!(update_cdf_level(vid, ev, true, &ladder), 1);
        assert_eq!(rate_est_ctrls(rate_est_level(ScArm::Allintra, ea)), (2, false));
        assert_eq!(rate_est_ctrls(rate_est_level(vid, ev)), (1, true));
    }
    for preset in 6u8..=13 {
        let ea = eff_enc_mode(ScArm::Allintra, preset);
        assert_eq!(rdoq_level(ScArm::Allintra, ea, CoeffLvl::Normal), 3);
        assert_eq!(rdoq_level(ScArm::Allintra, ea, CoeffLvl::High), 0);
    }
    assert_eq!(rdoq_level(vid, eff_enc_mode(vid, 10), CoeffLvl::High), 1);
    assert_eq!(rdoq_level(vid, eff_enc_mode(vid, 13), CoeffLvl::High), 2);
}
