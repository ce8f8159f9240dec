//! The pieces that the look-ahead search of a block is made of.

use svtav1_encoder::quant::build_quant_table;
use svtav1_encoder::tpl::dispenser::{
    tpl_adds_residual, tpl_copy_block, tpl_filter_intra_edge, tpl_intra_disabled,
    tpl_needs_interpolation, tpl_predict_intra, tpl_predictor_position, tpl_tx_size, tx_dims,
};
use svtav1_encoder::tpl::model::{tpl_base_rdmult, tpl_mc_flow_synthesis, TplSynthPic};
use svtav1_encoder::tpl::refs::{tpl_prep_info, TplPrepPic};
use svtav1_encoder::tpl::samples::{add_residual, block_sad, block_satd, subtract_block};
use svtav1_encoder::tpl::search::{
    get_neighbor_samples_dc, get_quantize_error, tpl_subpel_search, update_neighbor_samples_open_loop,
    SubpelDepth,
};
use svtav1_encoder::tpl::TplStats;
use svtav1_encoder::types::{BlockSize, Mv, SliceType};

/// A plane of eight rows whose samples tell their row and column.
fn plane() -> Vec<u8> {
    (0..64).map(|i| (10 * (i / 8) + i % 8) as u8).collect()
}

#[test]
fn neighbours_of_an_inner_block() {
    let (mut above, mut left) = ([0u8; 6], [0u8; 6]);
    get_neighbor_samples_dc(&plane(), 8, 36, &mut above, &mut left, 4);
    assert_eq!(above, [33, 34, 35, 36, 37, 0]);
    assert_eq!(left, [33, 43, 53, 63, 73, 0]);
    let (mut above, mut left) = ([0u8; 6], [0u8; 6]);
    update_neighbor_samples_open_loop(false, true, &plane(), 8, 8, 8, 4, 4, 4, 4, &mut above, &mut left);
    assert_eq!(above, [33, 34, 35, 36, 37, 0]);
    assert_eq!(left, [33, 43, 53, 63, 73, 0]);
}

#[test]
fn neighbours_outside_the_picture_are_made_up() {
    let (mut above, mut left) = ([0u8; 5], [0u8; 5]);
    update_neighbor_samples_open_loop(false, true, &plane(), 8, 8, 8, 0, 0, 4, 4, &mut above, &mut left);
    assert_eq!(above, [128, 127, 127, 127, 127]);
    assert_eq!(left, [128, 129, 129, 129, 129]);
    update_neighbor_samples_open_loop(false, true, &plane(), 8, 8, 8, 0, 4, 4, 4, &mut above, &mut left);
    assert_eq!(above, [30, 30, 31, 32, 33]);
    assert_eq!(left, [30; 5]);
}

#[test]
fn refinement_starts_on_a_whole_sample() {
    let p = tpl_subpel_search(SubpelDepth::Quarter, 4, 16, 16, BlockSize::Block16x16, 16, 32, 100, 64, 5, 64, 6000, Mv { x: 13, y: -13 });
    assert_eq!((p.limits.col_min, p.limits.col_max), (-36, 52));
    assert_eq!((p.limits.row_min, p.limits.row_max), (-52, 36));
    assert_eq!(p.start_mv, Mv { x: 8, y: -16 });
    assert_eq!((p.ref_base, p.src_base), (2164, 2069));
    assert_eq!((p.cost.error_per_bit, p.iters_per_step), (15, 2));
    assert_eq!((p.forced_stop, p.skip_diag_refinement), (SubpelDepth::Quarter, 4));
    let cheap = tpl_subpel_search(SubpelDepth::Quarter, 4, 16, 16, BlockSize::Block16x16, 0, 0, 0, 64, 0, 64, 6, Mv { x: 0, y: 0 });
    assert_eq!(cheap.cost.error_per_bit, 1);
}

#[test]
fn exact_levels_have_the_least_error() {
    let t = build_quant_table(100);
    let scan: Vec<u16> = (0..16).collect();
    let mut coeff = vec![0i32; 16];
    coeff[0] = 3 * t.dequant[0];
    let (mut q, mut d) = (vec![7i32; 16], vec![7i32; 16]);
    let (mut eob, mut err, mut sse) = (9u16, 0i64, 0i64);
    get_quantize_error(&t, &coeff, &mut q, &mut d, &scan, 16, false, &mut eob, &mut err, &mut sse);
    assert_eq!((q[0], d[0], eob), (3, coeff[0], 1));
    assert!(q[1..].iter().all(|&v| v == 0));
    assert_eq!((err, sse), (1, i64::from(coeff[0]) * i64::from(coeff[0]) / 4));
    get_quantize_error(&t, &coeff, &mut q, &mut d, &scan, 16, true, &mut eob, &mut err, &mut sse);
    assert_eq!((err, sse), (1, i64::from(coeff[0]) * i64::from(coeff[0])));
}

#[test]
fn small_decisions_of_a_block() {
    assert_eq!((tpl_tx_size(0, 0), tpl_tx_size(1, 1), tpl_tx_size(2, 2)), (2, 10, 18));
    assert!(tpl_intra_disabled(true, 3, 3));
    assert!(!tpl_intra_disabled(true, 2, 3));
    assert!(!tpl_intra_disabled(false, 3, 3));
    assert!(!tpl_needs_interpolation(Mv { x: 8, y: -8 }));
    assert!(tpl_needs_interpolation(Mv { x: 8, y: -9 }));
    assert_eq!(tpl_predictor_position(100, 64, 10, 2, Mv { x: -9, y: 16 }), 364);
    assert!(tpl_adds_residual(false, false, 1));
    assert!(tpl_adds_residual(true, true, 1));
    assert!(!tpl_adds_residual(true, false, 1));
    assert!(!tpl_adds_residual(false, true, 0));
    assert_eq!((tpl_base_rdmult(100), tpl_base_rdmult(-100)), (16, -16));
}

#[test]
fn blocks_are_copied_and_rows_repeated() {
    let mut dst = vec![9u8; 12];
    tpl_copy_block(&[1, 2, 0, 3, 4, 0], 0, 3, &mut dst, 5, 4, 2);
    assert_eq!(dst, [9, 9, 9, 9, 9, 1, 2, 9, 9, 3, 4, 9]);
    let pred: Vec<u8> = (0..256).map(|i| (i / 16) as u8).collect();
    let added = add_residual(&pred, &[250; 128], 16, 2);
    assert_eq!((added[0], added[16], added[32], added[64], added[240]), (250, 250, 252, 254, 255));
    let added = add_residual(&pred, &[-8; 64], 16, 4);
    assert_eq!((added[0], added[128], added[12 * 16], added[255]), (0, 0, 4, 4));
}

#[test]
fn blocks_are_measured_in_their_plane() {
    let plane: Vec<u8> = (0..20 * 20).map(|i| (i % 20) as u8).collect();
    let pred = vec![4u8; 256];
    // Columns 2 to 17 against 4.
    assert_eq!(block_sad(&plane, 42, 20, &pred, 16), 16 * (2 + 1 + (0..14).sum::<i64>()));
    let res = subtract_block(&plane, 42, 20, &pred, 16, 4);
    assert_eq!((res.len(), res[0], res[15], res[16]), (64, -2, 13, -2));
    assert_eq!(block_satd(&[3, -4, 0, 5]), 12);
}

#[test]
fn edges_are_smoothed_along_the_direction() {
    let plan = |angle, x, y| {
        let p = tpl_filter_intra_edge(angle, 64, 64, x, y);
        (p.corner, p.above, p.left)
    };
    assert_eq!(plan(45, 16, 16), (false, 33, 0));
    assert_eq!(plan(135, 16, 16), (true, 17, 17));
    assert_eq!(plan(225, 16, 16), (false, 0, 33));
    assert_eq!(plan(90, 16, 16), (false, 0, 0));
    assert_eq!(plan(180, 16, 16), (false, 0, 0));
    assert_eq!(plan(135, 0, 16), (true, 17, 0));
}

#[test]
fn references_are_looked_up_in_the_window() {
    let pic = |slice_type, number, refs: [u8; 2]| TplPrepPic {
        slice_type,
        temporal_layer_index: 1,
        is_ref: true,
        decode_order: 4,
        picture_number: number,
        ref_list_count_try: refs,
        ref_pic_poc: [[16, 99, 0, 0, 0, 0, 0, 0], [0; 8]],
        ref_pic_index: [[3, 4, 0, 0, 0, 0, 0, 0], [0; 8]],
        ref_poc_ds: [[16, 99, 0, 0, 0, 0, 0, 0], [0; 8]],
    };
    let r = tpl_prep_info(&[8, 16], &[pic(SliceType::I, 8, [2, 0]), pic(SliceType::B, 16, [2, 0])]);
    assert_eq!((r[0].tpl_ref0_count, r[0].tpl_ref1_count, r[0].tpl_decode_order), (0, 0, 4));
    assert_eq!((r[1].tpl_ref0_count, r[1].tpl_ref1_count), (2, 0));
    assert_eq!((r[1].ref_tpl_group_idx[0][0], r[1].ref_tpl_group_idx[0][1]), (1, -1));
    assert_eq!((r[1].ref_in_slide_window[0][0], r[1].ref_in_slide_window[0][1]), (true, false));
}

#[test]
fn still_blocks_hand_on_what_they_owe() {
    // The second picture points at the first without motion; the grids have
    // no cell to spare.
    let cell = TplStats { recrf_dist: 100, srcrf_dist: 60, ref_frame_poc: 7, ..TplStats::default() };
    let pic = |picture_number, stats| TplSynthPic { picture_number, aligned_width: 32, mi_rows: 8, mi_cols: 8, stats };
    let far = TplStats { recrf_dist: 1, ref_frame_poc: 1000, ..TplStats::default() };
    let mut pics = vec![pic(7, vec![far; 4]), pic(8, vec![cell; 4])];
    tpl_mc_flow_synthesis(&mut pics, &vec![true, true], 16, false, &|_, _, _, _| 0);
    assert_eq!(pics[0].stats.iter().map(|s| s.mc_dep_dist).collect::<Vec<_>>(), [40; 4]);
    assert_eq!(pics[1].stats.iter().map(|s| s.mc_dep_dist).collect::<Vec<_>>(), [0; 4]);
    // Pictures that are not valid hand on nothing.
    let mut pics = vec![pic(7, vec![far; 4]), pic(8, vec![cell; 4])];
    tpl_mc_flow_synthesis(&mut pics, &vec![true, false], 16, false, &|_, _, _, _| 0);
    assert_eq!(pics[0].stats.iter().map(|s| s.mc_dep_dist).collect::<Vec<_>>(), [0; 4]);
}

#[test]
fn transforms_are_as_high_as_the_rows_kept() {
    for (level, side) in [16usize, 32, 64].into_iter().enumerate() {
        assert_eq!(tx_dims(tpl_tx_size(level, 0)), (side, side));
        assert_eq!(tx_dims(tpl_tx_size(level, 1)), (side, side / 2));
        assert_eq!(tx_dims(tpl_tx_size(level, 2)), (side, side / 4));
    }
}

#[test]
fn only_directions_smooth_their_neighbours() {
    let p = tpl_predict_intra(4, 135, 64, 64, 16, 0, 16);
    let e = p.edges.unwrap();
    assert_eq!((e.corner, e.above, e.left), (true, 0, 17));
    assert_eq!((p.reach, p.has_left, p.has_above), (32, true, false));
    assert!(tpl_predict_intra(0, 0, 64, 64, 16, 16, 16).edges.is_none());
    assert!(tpl_predict_intra(9, 0, 64, 64, 16, 16, 16).edges.is_none());
}
