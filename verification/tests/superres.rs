//! Horizontal scaling and resizing of frames.

use svtav1_encoder::superres::energy::{
    analyze_hor_freq, denom_from_qindex_energy, energy_by_q2_thresh, ENERGY_BY_Q2_THRESH_ARFFRAME,
    ENERGY_BY_Q2_THRESH_KEYFRAME, ENERGY_BY_Q2_THRESH_KEYFRAME_SOLO,
};
use svtav1_encoder::superres::resize::{
    calculate_next_resize_scale, dimension_is_ok, validate_size_scales, ResizeConfig, ResizeEvent, ResizeMode,
    SuperresParams,
};
use svtav1_encoder::superres::{
    calc_superres_params, denom_for_qindex, denom_idx, frame_update_type, superres_in_recode_allowed,
    SuperresAutoSearch, SuperresConfig, SuperresMode, SuperresPicInput,
};
use svtav1_encoder::types::FrameUpdateType;

fn config(mode: SuperresMode, auto_search_type: SuperresAutoSearch) -> SuperresConfig {
    SuperresConfig { mode, denom: 12, kf_denom: 10, qthres: 40, kf_qthres: 20, auto_search_type }
}

fn picture(update_type: FrameUpdateType) -> SuperresPicInput {
    SuperresPicInput {
        allow_intrabc: false,
        allow_screen_content_tools: false,
        is_intra_only: update_type == FrameUpdateType::Kf,
        picture_qp: 50,
        update_type,
        frames_to_key: 30,
    }
}

#[test]
fn update_types_follow_the_hierarchy() {
    assert_eq!(frame_update_type(true, 4, 0), FrameUpdateType::Kf);
    assert_eq!(frame_update_type(false, 4, 0), FrameUpdateType::Arf);
    assert_eq!(frame_update_type(false, 4, 2), FrameUpdateType::IntnlArf);
    assert_eq!(frame_update_type(false, 4, 4), FrameUpdateType::Lf);
    assert_eq!(frame_update_type(false, 0, 0), FrameUpdateType::Lf);
    assert_eq!(denom_idx(8), 0);
    assert_eq!(denom_idx(16), 8);
}

#[test]
fn block_copy_keeps_full_resolution() {
    let mut pic = picture(FrameUpdateType::Kf);
    pic.allow_intrabc = true;
    let mut seed = 7;
    let d = calc_superres_params(&config(SuperresMode::Fixed, SuperresAutoSearch::All), &pic, &mut seed, &|| 12);
    assert_eq!(d.denom, 8);
    assert_eq!(d.total_recode_loop, 0);
    assert_eq!(seed, 7);
}

#[test]
fn fixed_denominators_come_from_the_configuration() {
    let cfg = config(SuperresMode::Fixed, SuperresAutoSearch::All);
    let mut seed = 0;
    assert_eq!(calc_superres_params(&cfg, &picture(FrameUpdateType::Kf), &mut seed, &|| 9).denom, 10);
    assert_eq!(calc_superres_params(&cfg, &picture(FrameUpdateType::Lf), &mut seed, &|| 9).denom, 12);
}

#[test]
fn random_denominators_advance_the_seed() {
    let cfg = config(SuperresMode::Random, SuperresAutoSearch::All);
    let mut seed = 1;
    let d = calc_superres_params(&cfg, &picture(FrameUpdateType::Lf), &mut seed, &|| 9);
    assert_eq!(seed, 1_103_527_590);
    // 1103527590 / 65536 % 2048 = 454, and 454 % 9 = 4.
    assert_eq!(d.denom, 12);
}

#[test]
fn every_denominator_is_tried_and_full_resolution_last() {
    let cfg = config(SuperresMode::Auto, SuperresAutoSearch::All);
    assert!(superres_in_recode_allowed(&cfg));
    let mut seed = 0;
    let d = calc_superres_params(&cfg, &picture(FrameUpdateType::Kf), &mut seed, &|| 11);
    assert_eq!(d.total_recode_loop, 9);
    assert_eq!(d.denom_array, [9, 10, 11, 12, 13, 14, 15, 16, 8]);
    let dual = calc_superres_params(
        &config(SuperresMode::Auto, SuperresAutoSearch::Dual),
        &picture(FrameUpdateType::Kf),
        &mut seed,
        &|| 11,
    );
    assert_eq!(dual.total_recode_loop, 2);
    assert_eq!(dual.denom_array[0], 11);
    assert_eq!(dual.denom_array[1], 8);
}

#[test]
fn leaves_are_not_measured() {
    let cfg = config(SuperresMode::Qthresh, SuperresAutoSearch::Solo);
    assert_eq!(denom_for_qindex(&cfg, &picture(FrameUpdateType::Lf), true, true, &|| 13), 8);
    assert_eq!(denom_for_qindex(&cfg, &picture(FrameUpdateType::Arf), true, true, &|| 13), 13);
    assert_eq!(denom_for_qindex(&cfg, &picture(FrameUpdateType::Arf), true, false, &|| 13), 8);
}

#[test]
fn thresholds_depend_on_the_frame() {
    assert_eq!(energy_by_q2_thresh(1, FrameUpdateType::Kf), Some(ENERGY_BY_Q2_THRESH_KEYFRAME_SOLO));
    assert_eq!(energy_by_q2_thresh(30, FrameUpdateType::Kf), Some(ENERGY_BY_Q2_THRESH_KEYFRAME));
    assert_eq!(energy_by_q2_thresh(30, FrameUpdateType::Arf), Some(ENERGY_BY_Q2_THRESH_ARFFRAME));
    assert_eq!(energy_by_q2_thresh(30, FrameUpdateType::Lf), None);
}

#[test]
fn more_detail_scales_less_on_values() {
    let mut above = [false; 16];
    let flat = denom_from_qindex_energy(&above);
    assert_eq!(flat, 16);
    above[15] = true;
    assert_eq!(denom_from_qindex_energy(&above), 8);
    above[15] = false;
    above[11] = true;
    assert_eq!(denom_from_qindex_energy(&above), 12);
}

#[test]
fn frequencies_of_a_flat_picture() {
    let luma = vec![50u8; 40 * 9];
    // A stand-in for the transform that keeps the first row of samples.
    let keep = |x: [i32; 64]| {
        let mut out = [0; 64];
        out[..16].copy_from_slice(&x[..16]);
        out
    };
    let f = analyze_hor_freq(&luma, 40, 33, 9, &keep);
    assert_eq!(f.blocks, 4);
    assert_eq!(f.energy[0], 0);
    // Four blocks of (50 * 50 + 2) / 4 each.
    assert_eq!(f.energy[1], 4 * 625);
    assert_eq!(f.energy[15], 4 * 625);
}

fn resize(mode: ResizeMode) -> ResizeConfig {
    ResizeConfig {
        mode,
        denom: 12,
        kf_denom: 10,
        pending_denom: 14,
        event: ResizeEvent { scale_mode: ResizeMode::Fixed, scale_denom: 11, scale_kf_denom: 9 },
    }
}

#[test]
fn resize_scales_come_from_the_mode() {
    let mut seed = 1;
    assert_eq!(calculate_next_resize_scale(&resize(ResizeMode::Unscaled), false, &mut seed), Some(8));
    assert_eq!(calculate_next_resize_scale(&resize(ResizeMode::Fixed), true, &mut seed), Some(10));
    assert_eq!(calculate_next_resize_scale(&resize(ResizeMode::Fixed), false, &mut seed), Some(12));
    assert_eq!(calculate_next_resize_scale(&resize(ResizeMode::Random), false, &mut seed), Some(12));
    assert_eq!(seed, 1_103_527_590);
}

#[test]
fn good_sizes_are_left_alone() {
    assert!(dimension_is_ok(1920, 1920, 8));
    assert!(!dimension_is_ok(1920, 900, 8));
    let mut rsz = SuperresParams { encoding_width: 1920, encoding_height: 1080, superres_denom: 8 };
    let mut denom = 8;
    let ok = validate_size_scales(
        ResizeMode::Random,
        SuperresMode::Random,
        1920,
        1080,
        &mut rsz,
        &mut denom,
        &|dim, d| (u32::from(dim) * 8 / u32::from(d)) as u16,
    );
    assert!(ok);
    assert_eq!((rsz.encoding_width, rsz.encoding_height, rsz.superres_denom, denom), (1920, 1080, 8, 8));
}

#[test]
fn fixed_denominators_are_not_reconciled() {
    let scaled = |dim: u16, d: u8| (u32::from(dim) * 8 / u32::from(d)) as u16;
    let mut rsz = SuperresParams { encoding_width: 40, encoding_height: 40, superres_denom: 16 };
    let mut denom = 16;
    let ok = validate_size_scales(
        ResizeMode::Fixed,
        SuperresMode::Fixed,
        100,
        100,
        &mut rsz,
        &mut denom,
        &scaled,
    );
    assert!(!ok);
    assert_eq!((rsz.encoding_width, rsz.encoding_height, rsz.superres_denom, denom), (40, 40, 16, 16));
    // A random superres denominator gives way to the resize denominator that
    // the size stands for; the given one stays.
    let ok = validate_size_scales(
        ResizeMode::Fixed,
        SuperresMode::Random,
        100,
        100,
        &mut rsz,
        &mut denom,
        &scaled,
    );
    assert_eq!((rsz.encoding_width, rsz.superres_denom, denom), (40, 6, 16));
    assert_eq!(ok, dimension_is_ok(100, 40, 6));
}
