//! Rates and distortions of coding modes.

use svtav1_encoder::rd_cost::full_cost::{
    block_signals_txsize, coding_loop_context_generation, full_cost_pd0, txb_estimate_coeff_bits,
    txb_estimate_coeff_bits_pd0, BlockContexts, ComponentType, FullCostResult, FullDist, PlaneDist, SkipFacBits,
    TxbCoeffBits, TxbPlane,
};
use svtav1_encoder::rd_cost::inter_cost::{
    inter_fast_cost, is_interinter_compound_used, is_interintra_wedge_used, is_masked_compound_type, InterBlock,
    InterCandidate, InterCdfs, InterFacBits, InterFrame,
};
use svtav1_encoder::rd_cost::intra_cost::{
    filter_intra_allowed, intra_fast_cost, is_directional_mode, IntraBlock, IntraCandidate, IntraFacBits,
};
use svtav1_encoder::rd_cost::{cost_literal, rdcost};
use svtav1_encoder::src_ops::{get_mean_and_perpixel_variance, get_perpixel_variance, perceptual_weight};
use svtav1_encoder::types::{BlockSize, CompoundType, MotionMode, Mv, PredictionMode, TransformationType};

#[test]
fn costs_weigh_rate_against_distortion() {
    assert_eq!(cost_literal(3), 1536);
    assert_eq!(rdcost(512, 150, 50), 150 + 50 * 128);
    assert_eq!(full_cost_pd0(100, 50, 20, 30, 512), 6550);
}

#[test]
fn coefficient_bits_of_planes() {
    let coded = TxbPlane { eob: 4, coeff_rate: 70, skip_rate: 9 };
    let skipped = TxbPlane { eob: 0, coeff_rate: 70, skip_rate: 9 };
    assert_eq!(txb_estimate_coeff_bits_pd0(&coded, 0), 70);
    assert_eq!(txb_estimate_coeff_bits_pd0(&skipped, 0), 9);
    let all = txb_estimate_coeff_bits(ComponentType::All, Some(&coded), Some(&skipped), Some(&coded), 0);
    assert_eq!((all.y, all.cb, all.cr), (70, 9, 70));
}

#[test]
fn modes_and_sizes() {
    assert!(!is_directional_mode(0));
    assert!(is_directional_mode(1));
    assert!(is_directional_mode(8));
    assert!(!is_directional_mode(9));
    assert!(!block_signals_txsize(BlockSize::Block4x4));
    assert!(block_signals_txsize(BlockSize::Block8x8));
    assert!(is_masked_compound_type(CompoundType::Wedge));
    assert!(!is_masked_compound_type(CompoundType::Average));
    assert!(is_interintra_wedge_used(BlockSize::Block8x8));
    assert!(!is_interinter_compound_used(CompoundType::Wedge, BlockSize::Block64x64));
    assert!(filter_intra_allowed(1, BlockSize::Block8x8, 0, 0));
    assert!(!filter_intra_allowed(0, BlockSize::Block8x8, 0, 0));
}

#[test]
fn free_modes_cost_their_distortion() {
    let block = IntraBlock {
        bsize: BlockSize::Block8x8,
        is_key_slice: true,
        allow_intrabc: false,
        allow_palette: false,
        is_chroma_reference: true,
        skip_mode_flag: false,
        filter_intra_level: 0,
        has_uv: true,
        intra_luma_top_ctx: 0,
        intra_luma_left_ctx: 0,
        is_inter_ctx: 0,
        skip_mode_ctx: 0,
        palette_bsize_ctx: 0,
        palette_mode_ctx: 0,
    };
    let cand = IntraCandidate {
        mode: 0,
        uv_mode: 0,
        angle_delta_y: 0,
        angle_delta_uv: 0,
        cfl_alpha_signs: 0,
        cfl_alpha_idx: 0,
        filter_intra_mode: 5,
        palette: None,
        palette_mode_cost: 0,
        use_intrabc: false,
        dv_bits: 0,
    };
    let free = intra_fast_cost(&block, &cand, 512, 40, &IntraFacBits::zeroed());
    assert_eq!((free.cost, free.fast_luma_rate, free.fast_chroma_rate), (40 * 128, 0, 0));
    let mut t = IntraFacBits::zeroed();
    t.y_mode[0][0][0] = 600;
    let priced = intra_fast_cost(&block, &cand, 512, 40, &t);
    assert_eq!((priced.cost, priced.fast_luma_rate), (40 * 128 + 600, 600));
}

#[test]
fn variances_of_blocks() {
    let mut block = vec![10u8; 64];
    assert_eq!(get_perpixel_variance(&block, 8, BlockSize::Block8x8), 0);
    for v in block.iter_mut().take(32) {
        *v = 30;
    }
    assert_eq!(get_perpixel_variance(&block, 8, BlockSize::Block8x8), 100);
    let (a, b) = get_mean_and_perpixel_variance(&block, 8, BlockSize::Block8x8);
    assert_eq!((a.max(b), a.min(b)), (100, 20));
    assert_eq!((perceptual_weight(20), perceptual_weight(128), perceptual_weight(0)), (73, 256, 0));
}

#[test]
fn contexts_are_derived_only_where_they_are_read() {
    let c = coding_loop_context_generation(true, false, false, 0, true, || (1, 2), || 3, || 4, || 5);
    assert_eq!((c.intra_luma_top_ctx, c.intra_luma_left_ctx, c.is_inter_ctx, c.skip_mode_ctx), (1, 2, 3, 4));
    assert_eq!((c.skip_coeff_ctx, c.collect_ref_counts), (5, false));
    let c = coding_loop_context_generation(false, false, true, 1, false, || (1, 2), || 3, || 4, || 5);
    assert_eq!((c.intra_luma_top_ctx, c.is_inter_ctx, c.skip_mode_ctx, c.skip_coeff_ctx), (0, 0, 0, 0));
    assert!(c.collect_ref_counts);
    let c = coding_loop_context_generation(true, true, false, 2, false, || (1, 2), || 3, || 4, || 5);
    assert!(!c.collect_ref_counts);
}

#[test]
fn distortions_are_kept_in_their_low_half() {
    let r = FullCostResult {
        cost: 0,
        total_rate: 0,
        full_dist: 0x3_0000_0007,
        full_cost_ssim: None,
        forced_coeff_skip: false,
        skip_mode: false,
    };
    assert_eq!(r.full_dist_u32(), 7);
}

#[test]
fn even_odds_cost_a_bit() {
    let table = |rows: usize, n: usize| vec![(1..=n).map(|i| (32768 - 32768 * i / n) as u16).collect(); rows];
    let t = InterFacBits::from_cdfs(&InterCdfs {
        skip_mode_cdf: table(3, 2),
        intra_inter_cdf: table(4, 2),
        newmv_cdf: table(6, 2),
        zeromv_cdf: table(2, 2),
        refmv_cdf: table(6, 2),
        drl_cdf: table(3, 2),
        inter_compound_mode_cdf: table(8, 8),
        switchable_interp_cdf: table(16, 3),
        motion_mode_cdf: table(22, 3),
        obmc_cdf: table(22, 2),
        interintra_cdf: table(4, 2),
        interintra_mode_cdf: table(4, 4),
        wedge_interintra_cdf: table(22, 2),
        wedge_idx_cdf: table(22, 16),
        comp_group_idx_cdf: table(6, 2),
        compound_index_cdf: table(6, 2),
        compound_type_cdf: table(22, 2),
    });
    assert_eq!(t.new_mv_mode[3], [512, 512]);
    assert_eq!(t.inter_intra_mode[2], [1024; 4]);
    assert_eq!(t.inter_compound_mode[7], [1536; 8]);
    assert_eq!(t.wedge_idx[21], [2048; 16]);
}

#[test]
fn nearest_vectors_cost_their_flags() {
    let frame = InterFrame {
        allow_screen_content_tools: false,
        skip_mode_flag: false,
        interpolation_filter: 0,
        is_motion_mode_switchable: false,
        enable_dual_filter: false,
        enable_masked_compound: false,
        enable_jnt_comp: false,
        enable_interintra_compound: false,
        gm_wmtype: [TransformationType::Identity; 8],
    };
    let block = InterBlock {
        bsize: BlockSize::Block16x16,
        skip_mode_ctx: 0,
        is_inter_ctx: 0,
        mode_context: 0,
        ref_mv_count: 1,
        drl_ctx: [0; 3],
        ref_frames_num_bits: 700,
        interp_ctx: [0; 2],
        comp_group_idx_ctx: 0,
        comp_index_ctx: 0,
        approx_inter_rate: 0,
        ifs_at_mds0: true,
    };
    let cand = InterCandidate {
        mode: PredictionMode::NearestMv,
        ref_frame: [1, -1],
        mv: [Mv { x: 0, y: 0 }; 2],
        pred_mv: [Mv { x: 0, y: 0 }; 2],
        mv_bits: [50, 60],
        drl_index: 0,
        interp_filters: 0,
        motion_mode: MotionMode::SimpleTranslation,
        motion_mode_allowed: MotionMode::SimpleTranslation,
        interintra_allowed: false,
        is_interintra_used: false,
        interintra_mode: 0,
        use_wedge_interintra: false,
        interintra_wedge_index: 0,
        comp_group_idx: 0,
        compound_idx: 1,
        interinter_comp_type: CompoundType::Average,
        interinter_wedge_index: 0,
        skip_mode_allowed: false,
    };
    let mut t = InterFacBits::zeroed();
    let free = inter_fast_cost(&frame, &block, &cand, 512, 40, &t);
    assert_eq!((free.cost, free.rate.luma, free.rate.chroma), (700 + 40 * 128, 700, 0));
    t.new_mv_mode[0] = [9000, 100];
    t.zero_mv_mode[0] = [9000, 20];
    t.ref_mv_mode[0] = [3, 9000];
    t.intra_inter[0] = [9000, 1000];
    let priced = inter_fast_cost(&frame, &block, &cand, 512, 40, &t);
    assert_eq!((priced.cost, priced.rate.luma), (700 + 1123 + 40 * 128, 700 + 1123));
    // A new vector stops at the first flag and pays for its difference.
    let fresh = InterCandidate { mode: PredictionMode::NewMv, ..cand };
    let priced = inter_fast_cost(&frame, &block, &fresh, 512, 40, &t);
    assert_eq!(priced.rate.luma, 700 + 9000 + 1000 + 50);
}

/// Rates, distortions and contexts start from nothing.
#[test]
fn costs_start_from_nothing() {
    let bits = SkipFacBits::default();
    assert_eq!((bits.skip, bits.skip_mode), ([[0; 2]; 3], [[0; 2]; 3]));
    let dist = FullDist::default();
    assert!([dist.y, dist.cb, dist.cr].iter().all(|p| p.ssd_nonskip == 0 && p.ssd_skip == 0));
    assert!([dist.y, dist.cb, dist.cr].iter().all(|p| p.ssim_nonskip == 0 && p.ssim_skip == 0));
    assert_eq!(PlaneDist::default().ssd_skip, 0);
    let txb = TxbCoeffBits::default();
    assert_eq!((txb.y, txb.cb, txb.cr), (0, 0, 0));
    let ctx = BlockContexts::default();
    assert_eq!((ctx.intra_luma_top_ctx, ctx.is_inter_ctx, ctx.skip_coeff_ctx), (0, 0, 0));
    assert!(!ctx.collect_ref_counts);
}
