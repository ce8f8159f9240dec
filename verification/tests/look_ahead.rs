//! The look-ahead search of superblocks and windows.

use svtav1_encoder::quant::build_quant_table;
use svtav1_encoder::tpl::context::{TplMeCand, TplMeResults, TplSbCtx, TxShape};
use svtav1_encoder::tpl::flow::{
    tpl_mc_flow, tpl_mc_flow_dispenser, tpl_mc_flow_forward, TplDispenseArgs, TplDispensed, TplSb, TplWindowFrame,
};
use svtav1_encoder::tpl::kernels::{
    InterpRequest, IntraRequest, InverseRequest, RefineRequest, TplKernels, TxRequest,
};
use svtav1_encoder::tpl::samples::{tpl_measure, TplPic, TplPicMut};
use svtav1_encoder::tpl::search::SubpelDepth;
use svtav1_encoder::tpl::superblock::tpl_mc_flow_dispenser_sb_generic;
use svtav1_encoder::tpl::{TplData, TplRefDs, TplSrcStats, TplStats, NEWMV};
use svtav1_encoder::types::{Mv, SliceType};

fn data(slice: SliceType) -> TplData {
    let mut d = TplData::default();
    d.tpl_slice_type = slice;
    d.tpl_ref_ds[0][0] = TplRefDs { picture_number: 33, pic_index: 0 };
    d
}

fn picture(y: &[u8], stride: usize, width: u32, height: u32, origin: usize) -> TplPic<'_> {
    TplPic { y, y_stride: stride, width, height, max_width: width, max_height: height, origin }
}

fn raster(n: u16) -> Vec<u16> {
    (0..n).collect()
}

fn context<'a>(input: TplPic<'a>, reference: TplPic<'a>, slice: SliceType, subsample_tx: u8) -> TplSbCtx<'a> {
    TplSbCtx {
        sb_x: 0,
        sb_y: 0,
        input,
        slice_type: slice,
        aligned_width: 64,
        aligned16_width: 4,
        mi_rows: 16,
        mi_cols: 16,
        max_input_luma_width: 64,
        max_input_luma_height: 64,
        synth_blk_size: 16,
        subsample_tx,
        shape: TxShape::Full,
        use_sad_in_src_search: false,
        compute_rate: true,
        intra_mode_end: 0,
        subpel_depth: SubpelDepth::Full,
        subpel_diag_refinement: 0,
        rdmult: 600,
        quant: build_quant_table(100),
        scans: vec![
            raster(256 >> subsample_tx),
            raster(1024 >> subsample_tx),
            raster(4096 >> subsample_tx),
        ],
        disable_intra_pred: false,
        enable_me_16x16: true,
        keep_source: true,
        tpl_src_data_ready: false,
        tpl_data: data(slice),
        base_tpl_valid_pic: vec![1],
        poc_map_idx: vec![33],
        ref_pics: vec![reference],
        rec_refs: vec![reference],
    }
}

fn no_motion() -> TplMeResults {
    TplMeResults {
        total_me_candidate_index: vec![],
        me_candidate_array: vec![],
        max_cand: 1,
        me_mv_array: vec![],
        max_refs: 1,
        max_l0: 1,
    }
}

fn blank() -> TplSrcStats {
    TplSrcStats {
        srcrf_dist: 0,
        srcrf_rate: 0,
        ref_frame_poc: 0,
        mv: Mv { x: 0, y: 0 },
        best_mode: 0,
        best_rf_idx: -1,
        best_intra_mode: 0,
    }
}

fn recon() -> TplPicMut {
    TplPicMut { y: vec![0; 64 * 64], y_stride: 64, width: 64, height: 64, border: 0, origin: 0 }
}

/// Mean of the neighbours that are there, and a value of its own for each of
/// the other modes.
fn predict(q: IntraRequest) -> Vec<u8> {
    let n = q.size as usize;
    let value = match q.mode {
        0 if q.plan.has_above && q.plan.has_left => q.above[1],
        0 if q.plan.has_above => q.above[1],
        0 if q.plan.has_left => q.left[1],
        0 => 128,
        m => 117 + 2 * m,
    };
    vec![value; n * n]
}

/// One level for each unit of the residual.
fn forward(q: TxRequest) -> Vec<i32> {
    let d = build_quant_table(100).dequant;
    q.residual.iter().enumerate().map(|(i, &r)| i32::from(r) * d[usize::from(i > 0)]).collect()
}

fn inverse(q: InverseRequest) -> Vec<i32> {
    let d = build_quant_table(100).dequant;
    q.coeff.iter().enumerate().map(|(i, &c)| c / d[usize::from(i > 0)]).collect()
}

fn interp(q: InterpRequest) -> Vec<u8> {
    vec![99; (q.block.size * q.block.size) as usize]
}

fn refine(q: RefineRequest) -> Mv {
    Mv { x: q.plan.start_mv.x + 4, y: q.plan.start_mv.y }
}

#[test]
fn a_flat_key_frame_is_coded_exactly() {
    let y = vec![128u8; 64 * 64];
    let pic = picture(&y, 64, 64, 64, 0);
    let k = TplKernels { predict, forward, inverse, interp, refine };
    let ctx = context(pic, pic, SliceType::I, 1);
    let (mut rec, mut grid, mut kept) = (recon(), vec![TplStats::default(); 16], vec![blank(); 16]);
    tpl_mc_flow_dispenser_sb_generic(&ctx, 0, &no_motion(), &mut rec, &mut grid, &mut kept, &k);
    for st in &grid {
        assert_eq!((st.srcrf_dist, st.recrf_dist), (32, 32));
        assert_eq!((st.srcrf_rate, st.recrf_rate), (16384, 16384));
        assert_eq!((st.mv, st.ref_frame_poc), (Mv { x: 0, y: 0 }, 0));
    }
    assert!(rec.y.iter().all(|&v| v == 128));
}

#[test]
fn intra_blocks_leave_the_statistics_of_the_reconstruction() {
    // Odd rows are not transformed.
    let y: Vec<u8> = (0..64 * 64).map(|i| if (i / 64) % 2 == 0 { 122 } else { 7 }).collect();
    // Only the first block has half of itself inside the frame.
    let pic = picture(&y, 64, 16, 16, 0);
    let k = TplKernels { predict, forward, inverse, interp, refine };
    let mut ctx = context(pic, pic, SliceType::B, 1);
    ctx.intra_mode_end = 2;
    let (mut rec, mut grid, mut kept) = (recon(), vec![TplStats::default(); 16], vec![blank(); 16]);
    tpl_mc_flow_dispenser_sb_generic(&ctx, 0, &no_motion(), &mut rec, &mut grid, &mut kept, &k);
    // Modes predict 128, 119 and 121: the last is nearest, one level away.
    assert_eq!((kept[0].best_mode, kept[0].best_intra_mode, kept[0].best_rf_idx), (2, 2, -1));
    assert_eq!((grid[0].srcrf_dist, grid[0].recrf_dist), (32, 32));
    let rate = 32 * 512 * (128 + 1 + 128 * 2);
    assert_eq!((grid[0].srcrf_rate, grid[0].recrf_rate), (rate, rate));
    assert_eq!(grid[1], TplStats::default());
    // Rows that were not transformed repeat the one before them.
    assert!((0..16).all(|r| rec.y[64 * r..64 * r + 16].iter().all(|&v| v == 122)));
    assert!((0..16).all(|r| rec.y[64 * r + 16..64 * r + 64].iter().all(|&v| v == 0)));
    // Nothing is left without a rate.
    ctx.compute_rate = false;
    tpl_mc_flow_dispenser_sb_generic(&ctx, 0, &no_motion(), &mut rec, &mut grid, &mut kept, &k);
    assert_eq!((grid[0].srcrf_rate, grid[0].recrf_dist), (1, 32));
}

#[test]
fn frames_that_nothing_refers_to_keep_their_prediction() {
    let y = vec![122u8; 64 * 64];
    let pic = picture(&y, 64, 16, 16, 0);
    let k = TplKernels { predict, forward, inverse, interp, refine };
    let mut ctx = context(pic, pic, SliceType::B, 0);
    ctx.disable_intra_pred = true;
    let (mut rec, mut grid, mut kept) = (recon(), vec![TplStats::default(); 16], vec![blank(); 16]);
    tpl_mc_flow_dispenser_sb_generic(&ctx, 0, &no_motion(), &mut rec, &mut grid, &mut kept, &k);
    assert_eq!((rec.y[0], rec.y[64 * 15 + 15]), (128, 128));
    ctx.tpl_data.is_ref = true;
    tpl_mc_flow_dispenser_sb_generic(&ctx, 0, &no_motion(), &mut rec, &mut grid, &mut kept, &k);
    assert_eq!((rec.y[0], rec.y[64 * 15 + 15]), (122, 122));
}

fn one_vector() -> TplMeResults {
    TplMeResults {
        total_me_candidate_index: vec![2; 21],
        me_candidate_array: vec![
            TplMeCand { direction: 2, ref_idx_l0: 0, ref_idx_l1: 0 },
            TplMeCand { direction: 0, ref_idx_l0: 0, ref_idx_l1: 0 },
        ]
        .repeat(21),
        max_cand: 2,
        me_mv_array: vec![Mv { x: 2, y: -3 }; 21],
        max_refs: 1,
        max_l0: 1,
    }
}

#[test]
fn inter_blocks_remember_their_reference() {
    let at = |r: usize, c: usize| ((3 * c + 5 * r) % 200) as u8;
    let reference: Vec<u8> = (0..160 * 160).map(|i| at(i / 160, i % 160)).collect();
    // The frame is the reference, moved.
    let y: Vec<u8> = (0..64 * 64).map(|i| at(48 + i / 64 - 3, 48 + i % 64 + 2)).collect();
    let k = TplKernels { predict, forward, inverse, interp, refine };
    let pic = picture(&y, 64, 16, 16, 0);
    let mut ctx = context(pic, picture(&reference, 160, 64, 64, 48 * 160 + 48), SliceType::B, 0);
    let (mut rec, mut grid, mut kept) = (recon(), vec![TplStats::default(); 16], vec![blank(); 16]);
    tpl_mc_flow_dispenser_sb_generic(&ctx, 0, &one_vector(), &mut rec, &mut grid, &mut kept, &k);
    assert_eq!(kept[0].best_mode, NEWMV);
    assert_eq!((kept[0].best_rf_idx, kept[0].ref_frame_poc, kept[0].mv), (0, 33, Mv { x: 16, y: -24 }));
    assert_eq!((kept[0].srcrf_dist, kept[0].srcrf_rate), (16, 8192));
    assert_eq!((grid[0].srcrf_dist, grid[0].recrf_dist), (16, 16));
    assert_eq!((grid[0].mv, grid[0].ref_frame_poc), (Mv { x: 16, y: -24 }, 33));
    assert!((0..16).all(|r| rec.y[64 * r..64 * r + 16] == y[64 * r..64 * r + 16]));
    // A second pass takes the search up.
    ctx.tpl_src_data_ready = true;
    let mut again = vec![TplStats::default(); 16];
    tpl_mc_flow_dispenser_sb_generic(&ctx, 0, &no_motion(), &mut rec, &mut again, &mut kept, &k);
    assert_eq!(again[0], grid[0]);
    // An intra slice has no candidates.
    ctx.tpl_src_data_ready = false;
    ctx.slice_type = SliceType::I;
    tpl_mc_flow_dispenser_sb_generic(&ctx, 0, &one_vector(), &mut rec, &mut again, &mut kept, &k);
    assert_eq!((kept[0].best_mode, kept[0].best_rf_idx), (0, -1));
}

#[test]
fn refined_vectors_are_interpolated() {
    let y = vec![99u8; 64 * 64];
    let reference = vec![3u8; 160 * 160];
    let k = TplKernels { predict, forward, inverse, interp, refine };
    let pic = picture(&y, 64, 16, 16, 0);
    let mut ctx = context(pic, picture(&reference, 160, 64, 64, 48 * 160 + 48), SliceType::B, 0);
    ctx.subpel_depth = SubpelDepth::Quarter;
    ctx.use_sad_in_src_search = true;
    let (mut rec, mut grid, mut kept) = (recon(), vec![TplStats::default(); 16], vec![blank(); 16]);
    tpl_mc_flow_dispenser_sb_generic(&ctx, 0, &one_vector(), &mut rec, &mut grid, &mut kept, &k);
    assert_eq!((kept[0].best_mode, kept[0].mv), (NEWMV, Mv { x: 20, y: -24 }));
    assert_eq!((rec.y[0], rec.y[15 * 64 + 15]), (99, 99));
}

#[test]
fn superblocks_are_searched_in_order() {
    let y = vec![128u8; 64 * 64];
    let pic = picture(&y, 64, 64, 64, 0);
    let k = TplKernels { predict, forward, inverse, interp, refine };
    let mut ctx = context(pic, pic, SliceType::B, 0);
    let (mut rec, mut grid, mut kept) = (recon(), vec![TplStats::default(); 16], vec![blank(); 16]);
    let sbs = vec![TplSb { org_x: 0, org_y: 0, is_full_64x64: true }];
    let me = vec![no_motion()];
    let pad = |q: TplPicMut| -> Vec<u8> { q.y.iter().map(|&v| v + 1).collect() };
    let rdmult = tpl_mc_flow_dispenser(
        30, 0, false, 0, &mut ctx, &sbs, &me, 1, &mut rec, &mut grid, &mut kept, &k, &pad, &|q| 6 * q + 5,
    );
    // Four blocks of 32x32, each shared among four cells.
    assert!(grid.iter().all(|st| st.srcrf_dist == 4));
    assert!(rec.y.iter().all(|&v| v == 129));
    assert_eq!(rdmult, 120);
}

#[test]
fn measures_count_levels_and_errors() {
    let t = build_quant_table(100);
    let scan = raster(256);
    let mut coeff = vec![0i32; 256];
    coeff[0] = -3 * t.dequant[0];
    coeff[2] = t.dequant[1] + 2;
    let m = tpl_measure(&coeff, &t, &scan, false, true);
    assert_eq!((m.qcoeff[0], m.qcoeff[1], m.qcoeff[2], m.eob), (-3, 0, 1, 3));
    assert_eq!((m.dqcoeff[0], m.dqcoeff[2]), (coeff[0], t.dequant[1]));
    assert_eq!((m.error, m.rate), (1, 512 * (3 + 1 + 3 + 2)));
    assert_eq!(tpl_measure(&coeff, &t, &scan, true, false).error, 4);
    assert_eq!(tpl_measure(&coeff, &t, &scan, true, false).rate, 0);
}

fn small(v: u8) -> TplPicMut {
    TplPicMut { y: vec![v; 4], y_stride: 2, width: 2, height: 2, border: 0, origin: 0 }
}

#[test]
fn windows_are_searched_forward() {
    let frame = |n: u64, valid: bool| TplWindowFrame {
        picture_number: n,
        aligned_width: 64,
        mi_rows: 16,
        mi_cols: 16,
        tpl_data: TplData { tpl_ref0_count: 2, ..TplData::default() },
        stats: vec![TplStats { srcrf_dist: 9, ..TplStats::default() }; 2],
        src_stats: vec![TplSrcStats { srcrf_rate: n as i64, ..TplSrcStats::default() }; 3],
        valid,
        tpl_src_data_ready: false,
    };
    let mut window = vec![frame(8, true), frame(4, false), frame(6, true)];
    let mut recons = vec![small(1), small(2), small(3)];
    let pocs = tpl_mc_flow_forward(&mut window, &mut recons, 1, &|q: TplDispenseArgs| {
        let own = &q.ref_pics[q.frame_idx];
        // The frame is handed over with its statistics cleared, and with what
        // an earlier pass kept of the search on its source.
        assert_eq!((q.frame.stats.len(), q.frame.stats[1].srcrf_dist), (2, 0));
        assert_eq!((q.frame.src_stats[2].srcrf_rate, q.frame.tpl_data.tpl_ref0_count), (8 - q.frame_idx as i64, 2));
        let mut src_stats = q.frame.src_stats;
        src_stats[0].srcrf_dist = 40;
        assert_eq!((own.y.len(), own.y_stride, q.ref_pics.len()), (0, 0, 3));
        // The reconstruction of an earlier frame is there.
        let first = if q.frame_idx == 0 { 0 } else { q.ref_pics[0].y[3] };
        assert_eq!((first, q.poc_map_idx.len()), (if q.frame_idx == 0 { 0 } else { 71 }, q.frame_idx + 1));
        assert_eq!(q.ref_pics[1].y[0], 2);
        let stats = vec![TplStats { srcrf_dist: 70 + q.frame_idx as i64, ..TplStats::default() }; 2];
        let mut recon = q.recon;
        recon.y = recon.y.iter().map(|&v| v + 70).collect();
        TplDispensed { stats, src_stats, recon }
    });
    assert_eq!(pocs, vec![8, 4, 6]);
    assert_eq!(window[0].stats[1].srcrf_dist, 70);
    let kept = |f: &TplWindowFrame| f.src_stats.iter().map(|s| (s.srcrf_dist, s.srcrf_rate)).collect::<Vec<_>>();
    assert_eq!(kept(&window[0]), [(40, 8), (0, 8), (0, 8)]);
    assert_eq!(kept(&window[1]), [(0, 4); 3]);
    assert_eq!(window[2].tpl_data.tpl_ref0_count, 2);
    assert!(window[0].tpl_src_data_ready);
    assert_eq!(window[1].stats[1].srcrf_dist, 0);
    assert!(!window[1].tpl_src_data_ready);
    assert_eq!(window[2].stats[1].srcrf_dist, 72);
    assert_eq!(recons.iter().map(|r| r.y[0]).collect::<Vec<u8>>(), [71, 2, 73]);
}

#[test]
fn windows_flow_forward_and_back() {
    let frame = |n: u64, valid: bool| TplWindowFrame {
        picture_number: n,
        aligned_width: 32,
        mi_rows: 8,
        mi_cols: 8,
        tpl_data: TplData::default(),
        src_stats: vec![TplSrcStats::default(); 4],
        stats: vec![TplStats { mc_dep_dist: 9, ..TplStats::default() }; 4],
        valid,
        tpl_src_data_ready: false,
    };
    // Every frame refers to the first one, by its number.
    let search = |q: TplDispenseArgs| {
        let st = TplStats {
            recrf_dist: 100,
            srcrf_dist: 60 + q.frame_idx as i64,
            ref_frame_poc: 7,
            ..TplStats::default()
        };
        let kept = TplSrcStats { srcrf_dist: 60 + q.frame_idx as i64, ..TplSrcStats::default() };
        TplDispensed { stats: vec![st; 4], src_stats: vec![kept; 4], recon: q.recon }
    };
    let mut window = vec![frame(7, false), frame(8, true), frame(9, true), frame(10, false)];
    let mut recons: Vec<TplPicMut> = (0..4).map(small).collect();
    assert_eq!(tpl_mc_flow(&mut window, &mut recons, 16, false, 0, &search, &|_, _, _, _| 0), 4);
    let owed = |f: &TplWindowFrame| f.stats.iter().map(|s| s.mc_dep_dist).collect::<Vec<i64>>();
    assert_eq!(owed(&window[0]), [39 + 38; 4]);
    assert_eq!(owed(&window[1]), [0; 4]);
    assert_eq!(window[1].stats[0].srcrf_dist, 61);
    assert_eq!(window.iter().map(|f| f.src_stats[3].srcrf_dist).collect::<Vec<i64>>(), [0, 61, 62, 0]);
    assert_eq!(owed(&window[3]), [0; 4]);
    assert_eq!(window.iter().map(|f| f.picture_number).collect::<Vec<u64>>(), [7, 8, 9, 10]);
    assert!(window.iter().all(|f| !f.tpl_src_data_ready));
    assert_eq!(recons.iter().map(|r| r.y[0]).collect::<Vec<u8>>(), [0, 1, 2, 3]);
}

#[test]
fn statistics_start_from_nothing() {
    let kept = TplSrcStats::default();
    assert_eq!((kept.srcrf_dist, kept.srcrf_rate, kept.ref_frame_poc, kept.best_rf_idx), (0, 0, 0, 0));
    let ds = TplRefDs::default();
    assert_eq!((ds.picture_number, ds.pic_index), (0, 0));
}
