//! Temporal dependency model.

use svtav1_encoder::src_ops::{delta_rate_cost, get_overlap_area, round_floor, OverlapCorner};
use svtav1_encoder::tpl::model::{
    tpl_factor_sums, tpl_frame_sums, tpl_model_update, tpl_qindex, tpl_r0_decision, tpl_sb_sums, TplSynthPic,
    QUANTIZER_TO_QINDEX,
};
use svtav1_encoder::tpl::search::{rate_estimator, result_model_store, TplXd};
use svtav1_encoder::tpl::{rdcost_tpl, TplStats};
use svtav1_encoder::types::{BlockSize, Mv};

/// Diagonal scan of a 16x16 block.
fn diagonal_scan() -> Vec<u16> {
    let mut scan = Vec::new();
    for d in 0..31usize {
        for r in 0..16usize {
            if d >= r && d - r < 16 {
                scan.push((r * 16 + (d - r)) as u16);
            }
        }
    }
    scan
}

#[test]
fn result_model_store_32() {
    let mut st = TplStats { srcrf_dist: 7, recrf_dist: 9, srcrf_rate: 3, recrf_rate: 5, ..Default::default() };
    let mut grid = vec![TplStats::default(); 4 * 4];
    result_model_store(&mut st, &mut grid, 32, 128, 64, 32, 32);
    assert_eq!(grid[6].srcrf_dist, 7);
    assert_eq!(grid[6].recrf_dist, 9);
    assert!(grid[5].srcrf_dist == 0 && grid[7].srcrf_dist == 0);
}

#[test]
fn result_model_store_16() {
    let mut st = TplStats { srcrf_dist: 64, recrf_dist: 64, srcrf_rate: 32, recrf_rate: 16, ..Default::default() };
    let mut grid = vec![TplStats::default(); 8 * 8];
    result_model_store(&mut st, &mut grid, 16, 128, 32, 16, 32);
    for &idx in &[10usize, 11, 18, 19] {
        assert_eq!(grid[idx].srcrf_dist, 16, "idx {idx}");
        assert_eq!(grid[idx].recrf_rate, 4);
    }
    assert_eq!(grid[9].srcrf_dist, 0);

    let mut st2 = TplStats { srcrf_dist: 5, recrf_dist: 5, srcrf_rate: 5, recrf_rate: 5, ..Default::default() };
    let mut grid2 = vec![TplStats::default(); 8 * 8];
    result_model_store(&mut st2, &mut grid2, 16, 128, 32, 16, 16);
    assert_eq!(grid2[10].srcrf_dist, 5);
    assert_eq!(grid2[11].srcrf_dist, 0);
}

#[test]
fn result_model_store_8() {
    let mut st = TplStats { srcrf_dist: 40, recrf_dist: 40, srcrf_rate: 8, recrf_rate: 4, ..Default::default() };
    let mut grid = vec![TplStats::default(); 16 * 8];
    result_model_store(&mut st, &mut grid, 8, 128, 16, 16, 16);
    for &idx in &[34usize, 35, 50, 51] {
        assert_eq!(grid[idx].srcrf_dist, 10, "idx {idx}");
    }
    assert_eq!(grid[33].srcrf_dist, 0);
}

#[test]
fn rate_estimator_counts() {
    let mut q = [0i32; 256];
    let scan = diagonal_scan();
    q[scan[0] as usize] = -3;
    q[scan[1] as usize] = 0;
    q[scan[2] as usize] = 1;
    let eob = 3;
    let rate = rate_estimator(&q, eob, &scan);
    assert_eq!(rate, (3 + 1 + 3 + 0 + 2) << 9);
}

#[test]
fn tpl_qindex_plain() {
    let base = QUANTIZER_TO_QINDEX[30] as i32;
    assert_eq!(tpl_qindex(30, 0, false, 0), base);
    assert!(tpl_qindex(63, 200, false, 0) <= 255);
}

#[test]
fn rdcost_shape() {
    assert_eq!(rdcost_tpl(0, 0, 5), 5 << 7);
    assert_eq!(rdcost_tpl(64, 512, 0), (512 * 64 + 256) >> 9);
}

#[test]
fn round_floor_negatives() {
    assert_eq!(round_floor(0, 16), Some(0));
    assert_eq!(round_floor(15, 16), Some(0));
    assert_eq!(round_floor(16, 16), Some(1));
    assert_eq!(round_floor(-1, 16), Some(-1));
    assert_eq!(round_floor(-16, 16), Some(-1));
    assert_eq!(round_floor(-17, 16), Some(-2));
}

#[test]
fn overlap_area_quadrants() {
    let b = BlockSize::Block16x16;
    let a0 = get_overlap_area(0, 0, 12, 12, OverlapCorner::UpLeft, b);
    let a1 = get_overlap_area(0, 16, 12, 12, OverlapCorner::UpRight, b);
    let a2 = get_overlap_area(16, 0, 12, 12, OverlapCorner::DownLeft, b);
    let a3 = get_overlap_area(16, 16, 12, 12, OverlapCorner::DownRight, b);
    assert_eq!((a0, a1, a2, a3), (16, 48, 48, 144));
    assert_eq!(a0 + a1 + a2 + a3, 256);
}

#[test]
fn model_update_propagates() {
    let ref_stats = vec![TplStats::default(); 16];
    let mut cur_stats = vec![TplStats::default(); 16];
    cur_stats[5] = TplStats {
        ref_frame_poc: 0,
        mv: Mv { x: 0, y: 0 },
        recrf_dist: 1000,
        srcrf_dist: 500,
        recrf_rate: 100,
        srcrf_rate: 50,
        ..Default::default()
    };
    let mut pics = vec![
        TplSynthPic { picture_number: 0, aligned_width: 64, mi_rows: 16, mi_cols: 16, stats: ref_stats },
        TplSynthPic { picture_number: 8, aligned_width: 64, mi_rows: 16, mi_cols: 16, stats: cur_stats },
    ];
    let cost = |_: i64, _: i64, _: i64, _: i64| -> i64 { 0 };
    tpl_model_update(&mut pics, 1, 4, 4, BlockSize::Block16x16, 2, 16, false, &cost);
    let ref_cell = &pics[0].stats[5];
    assert_eq!(ref_cell.mc_dep_dist, 500);
    assert_eq!(ref_cell.mc_dep_rate, 50);
    assert_eq!(pics[0].stats[4].mc_dep_dist, 0);
    assert_eq!(pics[0].stats[6].mc_dep_dist, 0);
}

#[test]
fn r0beta_no_dep() {
    let stats = vec![
        TplStats { recrf_dist: 100, srcrf_dist: 50, recrf_rate: 10, srcrf_rate: 5, ..Default::default() };
        16
    ];
    let frame = tpl_frame_sums(16, 8, 16, 64, 64, &stats);
    let out = tpl_r0_decision(frame);
    assert!(out.tpl_is_valid);
    let r0 = out.recrf as f64 / out.mc_dep_cost_base as f64;
    assert_eq!(r0, 1.0);
    let sb = tpl_sb_sums(16, 64, 8, 64, 64, 64, &stats, 0, 0);
    let rk = (sb.recrf_dist << 7) as f64 / ((sb.recrf_dist << 7) + sb.mc_dep_delta) as f64;
    assert_eq!(r0 / rk, 1.0);
    let cell = tpl_factor_sums(16, 16, 64, 64, &stats, 0, 0);
    let rk = (cell.recrf_dist << 7) as f64 / ((cell.recrf_dist << 7) + cell.mc_dep_delta) as f64;
    assert!((1.2 + rk / r0 - 2.2).abs() < 1e-9);
}

#[test]
fn xd_edges() {
    let xd = TplXd::new(68, 120, BlockSize::Block16x16, 64, 32);
    assert_eq!(xd.to_top, -(8 * 4 * 8));
    assert_eq!(xd.to_bottom, (68 - 4 - 8) * 4 * 8);
    assert_eq!(xd.to_left, -(16 * 4 * 8));
    assert_eq!(xd.to_right, (120 - 4 - 16) * 4 * 8);
    assert_eq!(xd.mi_row, 8);
    assert_eq!(xd.mi_col, 16);
}

/// Rates that are passed on: none without distortion or samples, the rate as
/// it is where the source is nearly free of distortion, and else that of a
/// model, in 64 bits.
#[test]
fn passed_on_rates_follow_the_model() {
    assert_eq!(delta_rate_cost(77, 0, 500, 64, 3), None);
    assert_eq!(delta_rate_cost(77, 900, 500, 0, 3), None);
    assert_eq!(delta_rate_cost(77, 900, 128, 64, 3), Some(77));
    assert_eq!(delta_rate_cost(77, 900, 129, 64, -3), Some(-3 * 8192));
    assert_eq!(delta_rate_cost(77, 900, 129, 64, i64::MAX), Some(-8192));
}
