//! The temporal filter.

use std::cell::RefCell;

use svtav1_encoder::temporal_filtering::blocks::{
    derive_tf_32x32_block_split_flag, mb_edges, subpel_idx_16x16, subpel_idx_8x8, tf_64x64_inter_prediction_request,
    tf_block_grid, tf_use_64x64_pred, TfSplitCtx,
};
use svtav1_encoder::temporal_filtering::kernels::{
    calculate_squared_errors_sum, calculate_squared_errors_sum_highbd, od_divu,
};
use svtav1_encoder::temporal_filtering::strength::{
    choose_src_save, derive_tf_shift, tf_q_decay_fp8, tf_qp_offset_idx, SrcSaveChoice,
};
use svtav1_encoder::temporal_filtering::subpel::{filt_unfilt_dist, Best, TfSearchCtrls};
use svtav1_encoder::temporal_filtering::weights::sqrt_fast;
use svtav1_encoder::tf_driver::accumulate::{TfFilter, TfPrediction};
use svtav1_encoder::tf_driver::block::{
    tf_predict_block, TfBlockKernels, TfBlockSettings, TfQuarterRequest, TfScoreRequest,
};
use svtav1_encoder::tf_driver::frame::{filter_block, filter_planes};
use svtav1_encoder::tf_driver::picture::{
    ra_mctf_filter, spatial_full_distortion, tf_target_qindex, TfSettings, TfWindow,
};
use svtav1_encoder::tf_driver::ladder::{
    run_subpel, search_block, tf_block_requests, TfLadderCtrls, TfMotion, TfSearchState, BLOCK_ERROR_INT_MAX,
};
use svtav1_encoder::tf_driver::planes::{PaPlane, TfPicBufs};
use svtav1_encoder::tf_driver::predict::{tf_predict_one, TfPlanePrediction};
use svtav1_encoder::tf_driver::setup::{
    tf_brightness_changed, tf_decay_factors, tf_differs_too_much, tf_enable_hme_flags, tf_frame_update_type,
    tf_kept_slots, tf_reference_slots, tf_segment_block_rect, tf_segment_counts, RaTfScs, TfCentre, TfMember,
    TfWindowStats,
};
use svtav1_encoder::tf_driver::window::{tf_filter_picture, TfSearchSettings};
use svtav1_encoder::types::FrameUpdateType;

fn scs(width: u32, height: u32) -> RaTfScs {
    let (rows, cols) = tf_segment_counts(width, height);
    RaTfScs {
        bit_depth: 8,
        qp: 30,
        enable_tf: 1,
        tf_strength: 0,
        kf_tf_strength: None,
        tf_ref_qp_based_th_scaling: false,
        vq_sharpness_tf: false,
        calculate_variance: false,
        compute_psnr: false,
        compute_ssim: false,
        enc_mode: 6,
        sb_size: 64,
        regions_per_width: 4,
        regions_per_height: 4,
        tf_segment_row_count: rows,
        tf_segment_column_count: cols,
        true_width: width,
        true_height: height,
        aligned_width: width,
        aligned_height: height,
    }
}

fn centre() -> TfCentre {
    TfCentre {
        is_ref: true,
        is_key_frame: true,
        is_islice: true,
        temporal_layer_index: 0,
        hierarchical_levels: 4,
        is_noise_level: false,
        filt_to_unfilt_diff: 0,
        noise_levels_log1p_fp16: [65536, 65536, 65536],
        pic_avg_variance: 500,
    }
}

#[test]
fn segments_of_small_and_large_frames() {
    assert_eq!(tf_segment_counts(352, 288), (1, 1));
    assert_eq!(tf_segment_counts(1920, 1080), (8, 6));
    assert_eq!(tf_segment_block_rect(7, 6, 8, 30, 17), (5, 10, 2, 4));
    // The segments cover every block once.
    let mut seen = vec![0; 30 * 17];
    for seg in 0..48 {
        let (x0, x1, y0, y1) = tf_segment_block_rect(seg, 6, 8, 30, 17);
        for y in y0..y1 {
            for x in x0..x1 {
                seen[y * 30 + x] += 1;
            }
        }
    }
    assert!(seen.iter().all(|&n| n == 1));
}

#[test]
fn references_come_in_steps() {
    assert_eq!(tf_reference_slots(2, 2, 1), vec![0, 1, 3, 4]);
    assert_eq!(tf_reference_slots(0, 2, 0), vec![1, 2]);
    assert_eq!(tf_reference_slots(3, 3, 2), vec![0, 2, 4, 6]);
    assert_eq!(tf_enable_hme_flags(0), (1, 1, 1, 1));
    assert_eq!(tf_enable_hme_flags(2), (1, 1, 1, 0));
    assert_eq!(tf_enable_hme_flags(4), (1, 1, 0, 0));
    assert_eq!(tf_frame_update_type(false, 3, 1), FrameUpdateType::IntnlArf);
}

#[test]
fn odd_references_are_left_out() {
    assert!(!tf_differs_too_much(100, 10, 16, 16, true));
    assert!(tf_differs_too_much(1000, 800, 16, 16, true));
    assert!(!tf_differs_too_much(1000, 800, 16, 16, false));
    let dark = [10u8; 16];
    let bright = [13u8; 16];
    assert!(tf_brightness_changed(Some(&bright), Some(&dark), 16, false));
    assert!(!tf_brightness_changed(Some(&bright), Some(&dark), 16, true));
    assert!(!tf_brightness_changed(None, None, 16, false));
    let window = TfWindowStats {
        tf_avg_ahd_error: 800,
        tf_avg_luma: 50,
        is_islice: true,
        aligned_width: 16,
        aligned_height: 16,
        regions: 16,
        centre_regions: Some(dark.to_vec()),
    };
    let member = |ahd: u32, luma: u64, v: u8| TfMember {
        ahd_error_to_central: ahd,
        avg_luma: luma,
        regions: Some(vec![v; 16]),
    };
    let members = vec![member(1000, 50, 10), member(900, 50, 10), member(0, 50, 10), member(700, 60, 13), member(700, 60, 12)];
    assert_eq!(tf_kept_slots(&vec![0, 1, 3, 4], &members, &window), vec![1, 4]);
}

#[test]
fn strengths() {
    // The weakest filter is none at all on key frames.
    assert_eq!(tf_decay_factors(&scs(64, 64), &centre(), true, true, 100), [0, 0, 0]);
    let mut strong = scs(64, 64);
    strong.tf_strength = 3;
    let on = tf_decay_factors(&strong, &centre(), true, false, 100);
    assert!(on[0] > 0);
    assert_eq!((on[1], on[2]), (65536, 65536));
    let shift = derive_tf_shift(1, 3, true, true, 0);
    assert_eq!((shift.shift_factor, shift.kf_shift_factor, shift.disable_on_this_frame), (11, 12, false));
    assert_eq!(tf_q_decay_fp8(128), 512);
    assert_eq!(tf_q_decay_fp8(10), 40);
    assert_eq!(tf_q_decay_fp8(0), 1);
    assert_eq!(tf_qp_offset_idx(false, false, 2), -1);
    assert_eq!(tf_qp_offset_idx(true, true, 2), 0);
    assert_eq!(tf_qp_offset_idx(true, false, 2), 3);
    assert_eq!(sqrt_fast(0), 0);
    assert_eq!(choose_src_save(false, false, false, false, false, true), SrcSaveChoice::LumaOnly);
    assert_eq!(choose_src_save(true, false, false, false, false, true), SrcSaveChoice::AllPlanes);
    assert_eq!(choose_src_save(false, false, false, false, false, false), SrcSaveChoice::Nothing);
}

#[test]
fn blocks_and_places() {
    assert_eq!(subpel_idx_16x16(3, 0), (2, 2));
    assert_eq!(subpel_idx_8x8(1, 2, 3), (5, 3));
    let g = tf_block_grid(130, 64, 1, 1);
    assert_eq!((g.blk_cols, g.blk_rows, g.blk_width_ch), (3, 1, 32));
    let e = mb_edges(64, 32, 16, 16, 40, 30);
    assert_eq!((e.top, e.left, e.bottom, e.right), (-256, -512, 192, 256));
    let r = tf_64x64_inter_prediction_request(128, 64, 8, -8);
    assert_eq!((r.bsize, r.pu_origin_x, r.pu_origin_y, r.mv_x, r.mv_y, r.mi_size), (64, 128, 64, 8, -8, 16));
    assert_eq!(tf_use_64x64_pred(110, &[25, 25, 25, 25], 11), 1);
    assert_eq!(tf_use_64x64_pred(110, &[25, 25, 25, 25], 10), 0);
    let mut ctx = TfSplitCtx::default();
    ctx.tf_32x32_block_error = [1000; 4];
    ctx.tf_16x16_block_error = [100; 16];
    derive_tf_32x32_block_split_flag(&mut ctx);
    assert_eq!(ctx.tf_32x32_block_split_flag, [1, 0, 0, 0]);
    ctx.tf_16x16_block_error = [300; 16];
    derive_tf_32x32_block_split_flag(&mut ctx);
    assert_eq!(ctx.tf_32x32_block_split_flag[0], 0);
    ctx.tf_32x32_block_error = [i32::MAX as u64; 4];
    ctx.tf_16x16_block_error = [0; 16];
    derive_tf_32x32_block_split_flag(&mut ctx);
    assert_eq!(ctx.tf_32x32_block_split_flag[0], 0);
}

#[test]
fn errors_of_small_blocks() {
    assert_eq!(calculate_squared_errors_sum(&[10, 20, 0, 30], 2, &[11, 18, 3, 30], 2, 2, 2), 14);
    assert_eq!(calculate_squared_errors_sum_highbd(&[10, 20, 0, 30], 2, &[11, 18, 3, 30], 2, 2, 2, 0), 14);
    assert_eq!(od_divu(17, 5), 3);
    let total = filt_unfilt_dist(128, 64, 64, 128, 128, &|a, _, b, _, w, h| (a + b) as u64 + u64::from(w * h));
    assert_eq!(total, 4160);
}

fn motion() -> TfMotion {
    TfMotion {
        hme_x: 3,
        hme_y: -2,
        mv_64x64_x: 1,
        mv_64x64_y: 1,
        sad_64x64: 1000,
        mv_32x32_x: [1, 2, 3, 4],
        mv_32x32_y: [0; 4],
        sad_32x32: [100; 4],
        mv_16x16_x: [5; 16],
        mv_16x16_y: [0; 16],
        mv_8x8_x: [6; 64],
        mv_8x8_y: [0; 64],
    }
}

#[test]
fn whole_blocks_share_one_displacement() {
    let ctrls = TfLadderCtrls { use_pred_64x64_only_th: 255, pred_error_32x32_th: 10, enable_8x8_pred: true };
    let refine = |b: u32, _x: u32, _y: u32, mx: i16, my: i16| Best { dist: u64::from(b), x: mx + 1, y: my };
    let mut st = TfSearchState::default();
    assert_eq!(st.err_64x64, BLOCK_ERROR_INT_MAX);
    let whole = search_block(&mut st, &motion(), &ctrls, &refine, &|_, _, i| 7 + i as u64);
    assert!(whole);
    assert_eq!((st.mv_64x64_x, st.mv_64x64_y, st.err_64x64), (25, -16, 64));
    assert_eq!(st.mv_32x32_x, [25; 4]);
    assert_eq!(st.err_32x32, [7, 8, 9, 10]);
    assert_eq!(st.split_32x32, [0; 4]);
    assert_eq!(tf_block_requests(&st, whole, 64, 0).len(), 1);
}

#[test]
fn good_quarters_are_not_split() {
    let ctrls = TfLadderCtrls { use_pred_64x64_only_th: 0, pred_error_32x32_th: 10, enable_8x8_pred: false };
    // The first quarter does well as it is, the others do better in parts.
    let refine = |b: u32, x: u32, y: u32, mx: i16, my: i16| Best {
        dist: match b {
            64 => 1_000_000,
            32 => {
                if x == 0 && y == 0 {
                    5
                } else {
                    1000
                }
            }
            _ => 10,
        },
        x: mx,
        y: my,
    };
    let mut st = TfSearchState::default();
    let whole = search_block(&mut st, &motion(), &ctrls, &refine, &|_, _, _| 0);
    assert!(!whole);
    assert_eq!(st.split_32x32, [0, 1, 1, 1]);
    assert_eq!(st.mv_32x32_x, [8, 16, 24, 32]);
    assert_eq!(st.mv_16x16_x[4], 40);
    assert_eq!(st.mv_16x16_x[0], 0);
    assert_eq!(st.err_16x16[15], 10);
    let reqs = tf_block_requests(&st, whole, 0, 0);
    assert_eq!(reqs.len(), 1 + 3 * 4);
    assert_eq!(reqs.iter().map(|r| r.bsize * r.bsize).sum::<u32>(), 4096);
}

#[test]
fn refinement_finds_the_better_step() {
    let ctrls = TfSearchCtrls {
        half_pel_mode: 1,
        quarter_pel_mode: 1,
        eight_pel_mode: 1,
        use_2tap: false,
        sub_sampling_shift: 0,
        enable_8x8_pred: false,
    };
    let score = |x: i16, y: i16, _s: u8| {
        let (dx, dy) = (i64::from(x) - 11, i64::from(y) + 5);
        (dx * dx + dy * dy) as u64
    };
    let best = run_subpel(16, 0, 0, 0, 0, &ctrls, 1, 2, 0, 8, -8, &score);
    assert_eq!((best.dist, best.x, best.y), (0, 11, -5));
}

fn prediction(v: u8) -> TfPrediction {
    TfPrediction {
        planes: [vec![v; 4096], vec![v; 1024], vec![v; 1024]],
        state: TfSearchState::default(),
    }
}

#[test]
fn frames_are_averaged_with_their_predictions() {
    let f = TfFilter { tf_chroma: false, tf_mv_dist_th: 10, decay: [0x7fff_ffff; 3], stride: [128, 64, 64] };
    let mut frame = [vec![100u8; 128 * 64], vec![50u8; 64 * 32], vec![60u8; 64 * 32]];
    // The second block has no prediction.
    filter_planes(&scs(128, 64), &f, &mut frame, TfSearchState::default(), &|col, _row, _state| {
        if col == 0 {
            vec![prediction(104)]
        } else {
            Vec::new()
        }
    });
    assert!(frame[0].chunks(128).all(|row| row[..64].iter().all(|&v| v == 102)));
    assert!(frame[0].chunks(128).all(|row| row[64..].iter().all(|&v| v == 100)));
    assert!(frame[1].iter().all(|&v| v == 50));
    // A prediction that is the frame itself changes nothing, chroma included.
    let f = TfFilter { tf_chroma: true, ..f };
    let src = [vec![70u8; 128 * 64], vec![70u8; 64 * 32], vec![70u8; 64 * 32]];
    let mut out = [vec![0u8; 128 * 64], vec![0u8; 64 * 32], vec![0u8; 64 * 32]];
    filter_block(&f, &src, &vec![prediction(70), prediction(70)], 1, 0, &mut out);
    assert_eq!((out[0][63], out[0][64], out[0][127]), (0, 70, 70));
    assert_eq!((out[1][31], out[1][32], out[2][63]), (0, 70, 70));
}

fn buffered(luma: &[u8], u: &[u8], v: &[u8]) -> TfPicBufs {
    TfPicBufs::from_aligned_planes(luma, u, v, 64, 64, 4, 4, &|_, _, _| (PaPlane::empty(), PaPlane::empty()))
}

fn member() -> TfMember {
    TfMember { ahd_error_to_central: 0, avg_luma: 7, regions: None }
}

fn window(past: usize, future: usize) -> TfWindow {
    TfWindow {
        past,
        future,
        members: (0..past + future + 1).map(|_| member()).collect(),
        stats: TfWindowStats {
            tf_avg_ahd_error: 0,
            tf_avg_luma: 7,
            is_islice: true,
            aligned_width: 64,
            aligned_height: 64,
            regions: 16,
            centre_regions: None,
        },
    }
}

#[test]
fn a_picture_alone_in_its_window_is_kept() {
    let luma: Vec<u8> = (0..64 * 64).map(|i| (i * 7 % 251) as u8).collect();
    let u: Vec<u8> = (0..32 * 32).map(|i| (i * 5 % 241) as u8).collect();
    let v: Vec<u8> = (0..32 * 32).map(|i| (i * 3 % 239) as u8).collect();
    let mut frames = vec![buffered(&u.repeat(4), &u, &v), buffered(&luma, &u, &v)];
    let settings = TfSettings { chroma_lvl: 1, hme_me_level: 0, ref_frame_factor: 1 };
    let r = ra_mctf_filter(
        &scs(64, 64),
        1,
        &centre(),
        &settings,
        &window(0, 0),
        100,
        &mut frames,
        &|_, _, _, _| prediction(9),
        &|_, _, b| b,
        &|| (5, 6),
        &|_, _| -1,
    );
    assert_eq!((r.tf_tot_horz_blks, r.tf_tot_vert_blks, r.filt_to_unfilt_diff), (0, 0, Some(0)));
    assert_eq!(r.motion_direction, -1);
    assert_eq!(frames[1].extract_luma(), luma);
    assert_eq!(frames[1].extract_u(), u);
    assert_eq!(frames[1].extract_v(), v);
    assert!(frames[1].do_tf && !frames[0].do_tf);
    assert_eq!(frames[1].saved_y, Some(luma));
    assert_eq!(frames[0].saved_y, None);
    assert_eq!(frames[0].extract_luma(), u.repeat(4));
}

#[test]
fn reports_measure_intra_slices() {
    let flat = vec![100u8; 64 * 64];
    let chroma = vec![50u8; 32 * 32];
    let settings = TfSettings { chroma_lvl: 0, hme_me_level: 0, ref_frame_factor: 1 };
    let run = |centre: TfCentre| {
        let mut frames = vec![buffered(&flat, &chroma, &chroma)];
        let r = ra_mctf_filter(
            &scs(64, 64),
            0,
            &centre,
            &settings,
            &window(1, 0),
            100,
            &mut frames,
            &|slot, _, _, _| {
                assert_eq!(slot, 0);
                prediction(101)
            },
            &|_, _, b| b,
            &|| (5, 6),
            &|h, v| (h + v) as i8,
        );
        (r, frames)
    };
    let (r, frames) = run(centre());
    let filtered = frames[0].extract_luma();
    let change: u64 = filtered.iter().map(|&v| (u64::from(v) - 100).pow(2)).sum();
    assert_eq!(r.filt_to_unfilt_diff, Some(change as u32));
    assert_eq!((r.tf_tot_horz_blks, r.tf_tot_vert_blks, r.motion_direction), (5, 6, 11));
    assert_eq!(frames[0].saved_y, Some(flat.clone()));
    let (r, frames) = run(TfCentre { is_islice: false, ..centre() });
    assert_eq!((r.filt_to_unfilt_diff, frames[0].saved_y.clone()), (None, None));
    assert!(frames[0].do_tf);
    assert_eq!(frames[0].extract_u(), chroma);
}

#[test]
fn pictures_without_chroma_are_filtered() {
    let flat = vec![100u8; 64 * 64];
    let mut frames = vec![buffered(&flat, &[], &[])];
    let settings = TfSettings { chroma_lvl: 0, hme_me_level: 3, ref_frame_factor: 1 };
    let r = ra_mctf_filter(
        &scs(64, 64),
        0,
        &centre(),
        &settings,
        &window(0, 1),
        100,
        &mut frames,
        &|slot, _, _, _| {
            assert_eq!(slot, 1);
            prediction(100)
        },
        &|plan, hme, b| {
            assert_eq!((plan.chroma, plan.complete_blocks, hme), (false, false, (1, 1, 0, 0)));
            b
        },
        &|| (0, 0),
        &|_, _| 0,
    );
    assert_eq!((r.filt_to_unfilt_diff, frames[0].extract_luma()), (Some(0), flat));
    assert!(frames[0].extract_u().is_empty());
}

#[test]
fn distortion_is_squared() {
    let (a, b) = ([1u8, 2, 9, 3, 4, 9], [1u8, 5, 7, 4]);
    assert_eq!(spatial_full_distortion(&a, 0, 3, &b, 0, 2, 2, 2), 9 + 16);
    assert_eq!(spatial_full_distortion(&a, 1, 3, &b, 1, 2, 1, 2), 9);
}

#[test]
fn the_filter_aims_at_a_quantizer() {
    let centre = centre();
    let q = tf_target_qindex(120, &centre, &|q| 100 * q, &|a, b| {
        assert_eq!(a, 12000);
        b - a
    });
    assert!(q <= 120);
    assert_eq!(tf_target_qindex(120, &centre, &|_| 0, &|_, _| 5), 125);
}

#[test]
fn padding_is_undone() {
    let samples: Vec<u8> = (0..12).collect();
    let p = PaPlane::padded(&samples, 4, 3, 2);
    assert_eq!((p.stride, p.org), (8, 18));
    assert_eq!((p.buf[0], p.buf[p.org - 1], p.buf[p.org + 4]), (0, 0, 3));
    assert_eq!(p.extract(), samples);
    let smaller = |y: Vec<u8>, w: usize, h: usize| {
        assert_eq!((y.len(), w, h), (8, 4, 2));
        (PaPlane::padded(&y[..2], 2, 1, 0), PaPlane::padded(&y[..1], 1, 1, 0))
    };
    let b = TfPicBufs::from_aligned_planes(&samples[..8], &[1, 2], &[3, 4], 4, 2, 2, 9, &smaller);
    assert_eq!((b.pa.quarter.extract(), b.pa.sixteenth.extract(), b.pa.picture_number), (vec![0, 1], vec![0], 9));
    assert_eq!(b.extract_luma(), samples[..8]);
    assert_eq!(b.extract_u(), vec![1, 2]);
    assert_eq!(b.extract_v(), vec![3, 4]);
}

#[test]
fn requests_name_every_plane() {
    let req = tf_64x64_inter_prediction_request(64, 0, 5, -3);
    let luma = tf_predict_one(&req, false, 64, 32, 32);
    assert_eq!(luma.len(), 1);
    assert_eq!((luma[0].plane, luma[0].dst, luma[0].dst_stride, luma[0].x, luma[0].y), (0, 0, 64, 64, 0));
    assert_eq!((luma[0].size, luma[0].conv_stride, luma[0].mv.x, luma[0].mv.y), (64, 64, 5, -3));
    let e = luma[0].edges;
    assert_eq!((e.left, e.right, e.top, e.bottom), (-512, 0, 0, 512));
    let all = tf_predict_one(&req, true, 128, 32, 32);
    assert_eq!(all.iter().map(|p| p.plane).collect::<Vec<_>>(), [0, 1, 2]);
    assert_eq!((all[2].x, all[2].size, all[2].dst_stride, all[2].conv_stride), (32, 32, 32, 64));
    assert_eq!(all[1].edges, e);
}

/// A search hands what it leaves on to the next one, segment by segment.
#[test]
fn searches_start_from_what_the_last_one_left() {
    let f = TfFilter { tf_chroma: false, tf_mv_dist_th: 10, decay: [0x7fff_ffff; 3], stride: [128, 64, 64] };
    let mut frame = [vec![100u8; 128 * 128], vec![50u8; 64 * 64], vec![60u8; 64 * 64]];
    let order = RefCell::new(Vec::new());
    let scs = RaTfScs { tf_segment_column_count: 2, tf_segment_row_count: 1, ..scs(128, 128) };
    let first = TfSearchState { mv_64x64_x: 5, ..TfSearchState::default() };
    filter_planes(&scs, &f, &mut frame, first, &|col, row, state| {
        order.borrow_mut().push((col, row, state.mv_64x64_x));
        // The third block has no prediction.
        if (col, row) == (1, 0) {
            return Vec::new();
        }
        let state = TfSearchState { mv_64x64_x: state.mv_64x64_x + 1, ..state };
        vec![TfPrediction { state, ..prediction(100) }]
    });
    assert_eq!(order.into_inner(), [(0, 0, 5), (0, 1, 6), (1, 0, 7), (1, 1, 7)]);
    assert!(frame[0].iter().all(|&v| v == 100));
}

fn plain_search() -> TfSearchSettings {
    TfSearchSettings {
        ladder: TfLadderCtrls { use_pred_64x64_only_th: 0, pred_error_32x32_th: 10, enable_8x8_pred: false },
        subpel: TfSearchCtrls {
            half_pel_mode: 0,
            quarter_pel_mode: 0,
            eight_pel_mode: 0,
            use_2tap: true,
            sub_sampling_shift: 1,
            enable_8x8_pred: false,
        },
        two_tap_filters: 1,
        regular_filters: 2,
        subpel_early_exit_th: 0,
    }
}

fn plain_blocks(ladder: TfLadderCtrls, tf_chroma: bool) -> TfBlockSettings {
    let s = plain_search();
    TfBlockSettings {
        ladder,
        subpel: s.subpel,
        two_tap_filters: s.two_tap_filters,
        regular_filters: s.regular_filters,
        subpel_early_exit_th: s.subpel_early_exit_th,
        tf_chroma,
        sb_size: 64,
        mi_cols: 48,
        mi_rows: 32,
    }
}

/// The planes of a block are those that the state of its search asks for.
#[test]
fn blocks_are_predicted_as_they_were_searched() {
    let kernels = TfBlockKernels {
        motion: |slot: usize, x: u32, y: u32| {
            assert_eq!((slot, x, y), (3, 64, 0));
            motion()
        },
        score: |r: TfScoreRequest| {
            assert_eq!((r.slot, r.shift, r.block.subsampling_shift), (3, 1, 1));
            assert_eq!(r.block.interp_filters, if r.block.bsize >= 32 { 1 } else { 2 });
            assert_eq!(r.edges.left, -8 * i32::from(r.block.pu_origin_x));
            match (r.block.bsize, r.block.idx_x, r.block.idx_y) {
                (64, _, _) => 1_000_000,
                (32, 0, 0) => 5,
                (32, _, _) => 1000,
                _ => 10,
            }
        },
        predict: |slot: usize, p: TfPlanePrediction| {
            assert_eq!(slot, 3);
            (0..p.size * p.size).map(|i| (p.size + p.plane + i % p.size) as u8 + p.mv.x as u8).collect::<Vec<u8>>()
        },
        quarter_error: |_: TfQuarterRequest| -> u64 { panic!("the block is not predicted as a whole") },
    };
    let before = TfSearchState { err_8x8: [77; 64], mv_16x16_x: [9; 16], ..TfSearchState::default() };
    let r = tf_predict_block(&kernels, &plain_blocks(plain_search().ladder, true), 3, 64, 0, before);
    assert_eq!(r.state.split_32x32, [0, 1, 1, 1]);
    assert_eq!(r.state.mv_32x32_x, [8, 16, 24, 32]);
    // What has not been searched is as it was.
    assert_eq!((r.state.err_8x8[0], r.state.mv_16x16_x[0], r.state.mv_16x16_x[4]), (77, 9, 40));
    // The first quarter is one block of 32, the others are of 16.
    let luma = |x: usize, y: usize| r.planes[0][64 * y + x];
    assert_eq!((luma(0, 0), luma(31, 31), luma(32, 0), luma(33, 0), luma(48, 0)), (40, 71, 56, 57, 56));
    let chroma = |p: usize, x: usize, y: usize| r.planes[p][32 * y + x];
    assert_eq!((chroma(1, 0, 0), chroma(1, 15, 15), chroma(1, 16, 0), chroma(2, 17, 31)), (25, 40, 49, 51));
    assert_eq!((r.planes[1].len(), r.planes[1][1024], r.planes[2][4095]), (4096, 0, 0));
}

/// A block that is predicted as a whole takes its quarters' errors from that
/// prediction.
#[test]
fn quarters_are_measured_in_the_prediction_of_the_whole() {
    let kernels = TfBlockKernels {
        motion: |_: usize, _: u32, _: u32| motion(),
        score: |r: TfScoreRequest| u64::from(r.block.bsize),
        predict: |_: usize, p: TfPlanePrediction| {
            assert_eq!((p.plane, p.size, p.mv.x, p.mv.y), (0, 64, 24, -16));
            (0..4096u32).map(|i| (i / 64) as u8).collect::<Vec<u8>>()
        },
        quarter_error: |q: TfQuarterRequest| {
            assert_eq!((q.sb_x, q.sb_y, q.shift, q.prediction.len()), (0, 64, 1, 4096));
            100 + u64::from(q.prediction[64 * 32 * (q.quarter / 2)])
        },
    };
    let ladder = TfLadderCtrls { use_pred_64x64_only_th: 255, pred_error_32x32_th: 10, enable_8x8_pred: true };
    let r = tf_predict_block(&kernels, &plain_blocks(ladder, false), 0, 0, 64, TfSearchState::default());
    assert_eq!((r.state.mv_64x64_x, r.state.err_64x64), (24, 64));
    assert_eq!(r.state.mv_32x32_y, [-16; 4]);
    assert_eq!(r.state.err_32x32, [100, 100, 132, 132]);
    assert_eq!(r.planes[0][4095], 63);
    assert!(r.planes[1].iter().all(|&v| v == 0));
}

/// A picture is filtered with its kernels as with the predictions they make.
#[test]
fn pictures_are_filtered_with_their_kernels() {
    let flat = vec![100u8; 64 * 64];
    let chroma = vec![50u8; 32 * 32];
    let settings = TfSettings { chroma_lvl: 0, hme_me_level: 0, ref_frame_factor: 1 };
    let kernels = TfBlockKernels {
        motion: |slot: usize, x: u32, y: u32| {
            assert_eq!((slot, x, y), (0, 0, 0));
            TfMotion { mv_32x32_x: [0; 4], mv_64x64_x: 0, mv_64x64_y: 0, ..motion() }
        },
        score: |_: TfScoreRequest| 0,
        predict: |_: usize, p: TfPlanePrediction| vec![101u8; p.size * p.size],
        quarter_error: |_: TfQuarterRequest| -> u64 { panic!("the block is not predicted as a whole") },
    };
    let mut frames = vec![buffered(&flat, &chroma, &chroma)];
    let r = tf_filter_picture(
        &scs(64, 64),
        0,
        &centre(),
        &settings,
        &plain_search(),
        &window(1, 0),
        100,
        &mut frames,
        &kernels,
        &|_, _, b| b,
        &|| (5, 6),
        &|h, v| (h + v) as i8,
    );
    let mut plain = vec![buffered(&flat, &chroma, &chroma)];
    let expected = ra_mctf_filter(
        &scs(64, 64),
        0,
        &centre(),
        &settings,
        &window(1, 0),
        100,
        &mut plain,
        &|_, _, _, _| prediction(101),
        &|_, _, b| b,
        &|| (5, 6),
        &|h, v| (h + v) as i8,
    );
    assert_eq!(r, expected);
    assert_eq!(frames[0].extract_luma(), plain[0].extract_luma());
}
