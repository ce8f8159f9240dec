//! Kept references and switch frames.

use svtav1_encoder::picstruct::{
    Av1RpsNode, DpbEntry, EncCtxPicParams, MrpCtrls, PicDecisionCtx, PicId, PicParams, PredStructure, RefMgmtEvents,
    SeqPicParams,
};
use svtav1_encoder::ref_mgmt::{
    apply_events, exclusive_write_slots_mask_ld_cbr, find_slot, reset_state, storeable_slots_mask, stored_mask,
    RefMgmtDiag,
};
use svtav1_encoder::sframe::plan::{decide_sframe_mg, set_sframe_type};
use svtav1_encoder::sframe::refs::{prune_sframe_refs, set_sframe_rps, update_sframe_ref_order_hint};
use svtav1_encoder::sframe::{
    dist_to_s, sframe_qp, sframe_qp_offset, setup_sframe_qp, SFrameConfig, SFrameMode,
    SFramePositions, NO_SFRAME,
};

fn id(n: u32) -> PicId {
    PicId::new(n).unwrap()
}

fn events(store: u32, clear: u32, used: u32) -> RefMgmtEvents {
    RefMgmtEvents { store_id: PicId::new(store), clear_id: PicId::new(clear), use_id: PicId::new(used) }
}

fn picture(number: u64, ref_mgmt: RefMgmtEvents) -> PicParams {
    PicParams {
        picture_number: number,
        decode_order: number,
        temporal_layer_index: 0,
        is_overlay: false,
        ref_mgmt,
        rps: Av1RpsNode { refresh_frame_mask: 0b1, ref_dpb_index: [3; 7], ref_poc_array: [0; 7] },
        ref_list0_count: 4,
        ref_list1_count: 3,
        error_resilient_mode: false,
        is_switch_frame: false,
        sframe_ref_pruned: false,
        picture_qp: 30,
        qp_on_the_fly: false,
        sframe_qp_offset: 0,
        ref_order_hint: [0; 7],
        dpb_order_hint: [0; 8],
    }
}

fn context() -> PicDecisionCtx {
    PicDecisionCtx {
        pic_id_per_dpb_slot: [None; 8],
        dpb: [DpbEntry { picture_number: 5 }; 8],
        key_poc: 0,
        mg_size: 8,
        sframe_due: false,
        sframe_hier_lvls: 3,
        sframe_last_arf: 0,
        next_arf_is_s: false,
        lay0_toggle: 2,
        lay1_toggle: 1,
        sframe_poc: 0,
        ref_order_hint: [1, 2, 3, 4, 5, 6, 7, 8],
    }
}

fn sequence() -> SeqPicParams {
    SeqPicParams {
        rtc: false,
        hierarchical_levels: 3,
        pred_structure: PredStructure::RandomAccess,
        mrp_ctrls: MrpCtrls { ld_reduce_ref_buffs: 0 },
        max_managed_refs: 2,
    }
}

#[test]
fn kept_pictures_are_found_and_not_overwritten() {
    let mut ctx = context();
    let seq = sequence();
    let mut first = picture(8, events(7, 0, 0));
    let report = apply_events(&mut first, &seq, &mut ctx);
    assert_eq!(report.new_store_slot, Some(0));
    assert!(report.diagnostics.is_empty());
    assert_eq!(find_slot(&ctx, id(7)), Some(0));
    assert_eq!(stored_mask(&ctx), 1);
    // The next picture was meant for the same slot alone.
    let mut next = picture(16, events(0, 0, 0));
    let report = apply_events(&mut next, &seq, &mut ctx);
    assert_eq!(next.rps.refresh_frame_mask, 0);
    assert!(report.diagnostics.contains(RefMgmtDiag::RefreshMaskCollapsed { wanted: 1, preserved: 1 }));
    // One that is predicted from the kept picture goes everywhere else.
    let mut from_kept = picture(24, events(0, 0, 7));
    let report = apply_events(&mut from_kept, &seq, &mut ctx);
    assert!(report.use_applied);
    assert_eq!(from_kept.rps.refresh_frame_mask, 0xfe);
    assert_eq!(from_kept.rps.ref_dpb_index, [0; 7]);
    reset_state(&mut ctx);
    assert_eq!(stored_mask(&ctx), 0);
}

#[test]
fn refused_requests_say_why() {
    let seq = sequence();
    let mut ctx = context();
    let mut overlay = picture(8, events(7, 0, 0));
    overlay.is_overlay = true;
    assert_eq!(apply_events(&mut overlay, &seq, &mut ctx).diagnostics.as_slice(), vec![RefMgmtDiag::EventsOnOverlay]);
    let mut high = picture(8, events(7, 0, 0));
    high.temporal_layer_index = 2;
    assert_eq!(
        apply_events(&mut high, &seq, &mut ctx).diagnostics.as_slice(),
        vec![RefMgmtDiag::EventsOnNonBase { temporal_layer: 2 }]
    );
    let mut twice = picture(8, events(7, 7, 0));
    assert_eq!(
        apply_events(&mut twice, &seq, &mut ctx).diagnostics.as_slice(),
        vec![RefMgmtDiag::DuplicateIdAcrossEvents]
    );
    assert_eq!(stored_mask(&ctx), 0);
    let mut unknown = picture(8, events(0, 4, 5));
    let report = apply_events(&mut unknown, &seq, &mut ctx);
    assert!(report.diagnostics.contains(RefMgmtDiag::ClearIdNotFound(id(4))));
    assert!(report.diagnostics.contains(RefMgmtDiag::UseIdNotFound(id(5))));
    assert_eq!(report.diagnostics.len(), 2);
}

#[test]
fn stores_stop_at_the_cap() {
    let seq = sequence();
    let mut ctx = context();
    apply_events(&mut picture(8, events(1, 0, 0)), &seq, &mut ctx);
    let again = apply_events(&mut picture(16, events(1, 0, 0)), &seq, &mut ctx);
    assert!(again.diagnostics.contains(RefMgmtDiag::StoreIdAlreadyHeld(id(1))));
    apply_events(&mut picture(24, events(2, 0, 0)), &seq, &mut ctx);
    let over = apply_events(&mut picture(32, events(3, 0, 0)), &seq, &mut ctx);
    assert!(over.diagnostics.contains(RefMgmtDiag::StoreCapReached { held: 2, cap: 2 }));
    // A released slot can be used again at once.
    let swap = apply_events(&mut picture(40, events(3, 1, 0)), &seq, &mut ctx);
    assert_eq!(swap.new_store_slot, Some(0));
    assert_eq!(find_slot(&ctx, id(1)), None);
}

#[test]
fn full_pools_are_reported() {
    let mut seq = sequence();
    seq.rtc = true;
    seq.hierarchical_levels = 0;
    seq.max_managed_refs = 8;
    assert_eq!(storeable_slots_mask(&seq), 0xf0);
    let mut ctx = context();
    for n in 1..=4 {
        apply_events(&mut picture(8 * u64::from(n), events(n, 0, 0)), &seq, &mut ctx);
    }
    let over = apply_events(&mut picture(64, events(5, 0, 0)), &seq, &mut ctx);
    assert!(over.diagnostics.contains(RefMgmtDiag::StorePoolFull { storeable_mask: 0xf0 }));
}

#[test]
fn low_delay_pictures_keep_their_slots() {
    let mut seq = sequence();
    seq.pred_structure = PredStructure::LowDelay;
    seq.hierarchical_levels = 2;
    assert_eq!(exclusive_write_slots_mask_ld_cbr(&seq), 0b0011_1111);
    assert_eq!(storeable_slots_mask(&seq), 0b1100_0000);
    seq.mrp_ctrls.ld_reduce_ref_buffs = 2;
    assert_eq!(exclusive_write_slots_mask_ld_cbr(&seq), 0b10);
}

fn config<'a>(mode: SFrameMode, dist: i32, positions: SFramePositions<'a>) -> SFrameConfig<'a> {
    SFrameConfig {
        mode,
        dist,
        qp: 0,
        qp_offset: 0,
        positions,
        hierarchical_levels: 3,
        pred_structure: PredStructure::RandomAccess,
        intra_period_length: -1,
        min_qp_allowed: 10,
        max_qp_allowed: 60,
        mfmv_enabled: false,
        order_hint_bits: 7,
    }
}

#[test]
fn distances_to_switch_frames() {
    let at = [10u64, 20, 50];
    let qps = [0u8, 33, 0];
    let offsets = [0i8, -4, 0];
    let posi = SFramePositions { positions: Some(&at), qps: Some(&qps), qp_offsets: Some(&offsets) };
    assert_eq!(dist_to_s(&posi, 4), (6, NO_SFRAME));
    assert_eq!(dist_to_s(&posi, 20), (0, 30));
    assert_eq!(dist_to_s(&posi, 50), (0, NO_SFRAME));
    assert_eq!(dist_to_s(&posi, 51), (NO_SFRAME, NO_SFRAME));
    assert_eq!(sframe_qp(&posi, 20), 33);
    assert_eq!(sframe_qp_offset(&posi, 20), -4);
    assert_eq!(dist_to_s(&SFramePositions::default(), 3), (NO_SFRAME, NO_SFRAME));
}

#[test]
fn only_base_pictures_switch() {
    let cfg = config(SFrameMode::StrictBase, 8, SFramePositions::default());
    let mut ctx = context();
    let mut base = picture(8, events(0, 0, 0));
    set_sframe_type(&mut base, &cfg, &mut ctx);
    assert!(base.is_switch_frame);
    let mut high = picture(8, events(0, 0, 0));
    high.temporal_layer_index = 1;
    set_sframe_type(&mut high, &cfg, &mut ctx);
    assert!(!high.is_switch_frame);
    let mut never = picture(8, events(0, 0, 0));
    set_sframe_type(&mut never, &config(SFrameMode::StrictBase, 0, SFramePositions::default()), &mut ctx);
    assert!(!never.is_switch_frame);
}

#[test]
fn quantizers_of_switch_frames_are_clamped() {
    let mut cfg = config(SFrameMode::StrictBase, 8, SFramePositions::default());
    cfg.qp = 63;
    let mut pic = picture(8, events(0, 0, 0));
    setup_sframe_qp(&mut pic, &cfg);
    assert!(pic.qp_on_the_fly);
    assert_eq!(pic.picture_qp, 60);
    cfg.qp = 3;
    setup_sframe_qp(&mut pic, &cfg);
    assert_eq!(pic.picture_qp, 10);
}

#[test]
fn switch_frames_refresh_every_slot() {
    let mut ctx = context();
    let mut enc = EncCtxPicParams { elapsed_non_cra_count: 9 };
    let mut pic = picture(40, events(0, 0, 0));
    set_sframe_rps(&mut pic, &mut ctx, &mut enc);
    assert!(pic.error_resilient_mode);
    assert_eq!(pic.rps.refresh_frame_mask, 0xff);
    assert_eq!((ctx.lay0_toggle, ctx.lay1_toggle, ctx.sframe_poc), (0, 0, 40));
    assert_eq!(enc.elapsed_non_cra_count, 0);
    let cfg = config(SFrameMode::StrictBase, 8, SFramePositions::default());
    update_sframe_ref_order_hint(&mut pic, &cfg, &mut ctx);
    assert_eq!(ctx.ref_order_hint, [40; 8]);
}

#[test]
fn nothing_is_pruned_without_a_switch_frame() {
    let ctx = context();
    let cfg = config(SFrameMode::StrictBase, 0, SFramePositions::default());
    let mut refs = [1i8, 5, 10];
    let mut total = 3u8;
    let split = |r: i8| [r, -1];
    let pruned = prune_sframe_refs(&picture(8, events(0, 0, 0)), &cfg, &ctx, &mut refs, &mut total, &split);
    assert!(!pruned);
    assert_eq!((refs, total), ([1, 5, 10], 3));
}

#[test]
fn first_groups_shrink_to_the_switch_frame() {
    let depth = |dist: i32, positions: SFramePositions| {
        let mut ctx = context();
        ctx.next_arf_is_s = true;
        decide_sframe_mg(&picture(0, events(0, 0, 0)), &config(SFrameMode::FlexibleBase, dist, positions), &mut ctx);
        assert!(!ctx.next_arf_is_s);
        ctx.sframe_hier_lvls
    };
    assert_eq!(depth(100, SFramePositions::default()), 3);
    assert_eq!(depth(4, SFramePositions::default()), 2);
    assert_eq!(depth(3, SFramePositions::default()), 1);
    // Positions that are all in the past leave the depth alone.
    let none: [u64; 0] = [];
    assert_eq!(depth(4, SFramePositions { positions: Some(&none), qps: None, qp_offsets: None }), 3);
    assert!(SFrameMode::FlexibleBase.is_flexible_insert());
    assert!(!SFrameMode::StrictBase.is_flexible_insert());
}
