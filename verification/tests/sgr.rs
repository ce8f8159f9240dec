//! Search of the self-guided restoration filter.

use svtav1_encoder::sgr_search::decision::{
    count_sgrproj_bits, sgrproj_finish_decision, switchable_decision, RESTORE_NONE, RESTORE_SGRPROJ, RESTORE_WIENER,
};
use svtav1_encoder::sgr_search::error::{
    get_pixel_proj_error, highbd_pixel_proj_error, lowbd_pixel_proj_error, ProjPlanes,
};
use svtav1_encoder::sgr_search::refine::finer_search_pixel_proj_error;
use svtav1_encoder::sgr_search::sweep::{
    apply_sgr, search_selfguided_restoration, search_sgrproj_unit, SgrBlock, SgrFiltered,
};
use svtav1_encoder::sgr_search::{
    decode_xq, encode_xq, search_flt_stride, sgr_params, SgFilterCtrls, SgrprojInfo, SGRPROJ_PRJ_BITS,
    SGRPROJ_PRJ_MAX0, SGRPROJ_PRJ_MAX1, SGRPROJ_PRJ_MIN1,
};

fn free(_: u16, _: u16, _: u16, _: u16) -> i32 {
    0
}

#[test]
fn encode_xq_is_not_the_inverse_of_decode_xq_in_the_r1_zero_arm() {
    let p = sgr_params(14);
    let xqd = encode_xq(&[1000, 0], &p);
    assert_eq!(xqd[0], SGRPROJ_PRJ_MAX0, "xq[0] must clamp");
    assert_eq!(
        xqd[1],
        ((1 << SGRPROJ_PRJ_BITS) - SGRPROJ_PRJ_MAX0).clamp(SGRPROJ_PRJ_MIN1, SGRPROJ_PRJ_MAX1)
    );
    assert_eq!(decode_xq(&xqd, &p), [xqd[0], 0]);
}

#[test]
fn switchable_skips_candidates_that_already_lost_to_none() {
    let choice = switchable_decision(1000, [10, 20, 30], [1_000_000, 1, 500_000], false, 0, true, 0);
    assert_eq!(choice.best_rtype, RESTORE_SGRPROJ);
    let choice = switchable_decision(1000, [10, 20, 30], [1_000_000, 1, 500_000], true, 0, true, 0);
    assert_eq!(choice.best_rtype, RESTORE_WIENER);
}

#[test]
fn switchable_ties_go_to_the_earlier_type() {
    let choice = switchable_decision(1000, [10, 10, 10], [500, 500, 500], true, 0, true, 0);
    assert_eq!(choice.best_rtype, RESTORE_NONE);
}

#[test]
fn sgrproj_finish_ties_go_to_none() {
    let info = SgrprojInfo { ep: 0, xqd: [0, 0] };
    let f = sgrproj_finish_decision(1000, [100, 100], &info, &info, 500, 500, &free);
    assert!(!f.chose_sgr, "an exact tie must choose NONE");
}

#[test]
fn search_flt_stride_matches_c_formula() {
    assert_eq!(search_flt_stride(1), 16);
    assert_eq!(search_flt_stride(8), 16);
    assert_eq!(search_flt_stride(9), 24);
    assert_eq!(search_flt_stride(64), 72);
}

#[test]
fn the_cheaper_side_of_the_finish_wins() {
    let info = SgrprojInfo { ep: 0, xqd: [0, 0] };
    let better = sgrproj_finish_decision(1000, [100, 100], &info, &info, 500, 400, &free);
    assert!(better.chose_sgr);
    assert_eq!(better.sse, 400);
    let worse = sgrproj_finish_decision(1000, [100, 100], &info, &info, 400, 500, &free);
    assert!(!worse.chose_sgr);
    assert_eq!(worse.sse, 400);
}

#[test]
fn bits_count_the_set_and_the_weights_in_use() {
    let a = SgrprojInfo { ep: 0, xqd: [3, 5] };
    let b = SgrprojInfo { ep: 0, xqd: [0, 0] };
    // Four bits for the set; ten for each weight that the set uses.
    assert_eq!(count_sgrproj_bits(&a, &b, &|_, _, _, _| 10), 24);
    let one = SgrprojInfo { ep: 14, xqd: [3, 5] };
    assert_eq!(count_sgrproj_bits(&one, &b, &|_, _, _, _| 10), 14);
}

#[test]
fn decoded_weights_add_up() {
    // Both filters: the weights and the frame's own add up to one.
    assert_eq!(decode_xq(&[-32, 31], &sgr_params(0)), [-32, 128 + 32 - 31]);
    assert_eq!(decode_xq(&[7, 31], &sgr_params(10)), [0, 97]);
    assert_eq!(decode_xq(&[7, 31], &sgr_params(15)), [7, 0]);
    // Coding gives the weights back where neither clamps.
    let p = sgr_params(3);
    let xqd = encode_xq(&[20, 70], &p);
    assert_eq!(decode_xq(&xqd, &p), [20, 70]);
}

#[test]
fn projection_error_of_single_samples() {
    let p = sgr_params(0);
    // No difference to either filter: the error is that of the samples.
    assert_eq!(lowbd_pixel_proj_error(&[10], 0, 1, 1, 1, &[12], 0, 1, &[192], 1, &[192], 1, &[5, 6], &p), 4);
    // A whole weight on the first filter takes the sample to it.
    assert_eq!(lowbd_pixel_proj_error(&[10], 0, 1, 1, 1, &[12], 0, 1, &[160], 1, &[192], 1, &[128, 0], &p), 0);
    assert_eq!(highbd_pixel_proj_error(&[10], 0, 1, 1, 1, &[12], 0, 1, &[192], 1, &[192], 1, &[5, 6], &p), 4);
    assert_eq!(highbd_pixel_proj_error(&[10], 0, 1, 1, 1, &[12], 0, 1, &[160], 1, &[192], 1, &[128, 0], &p), 0);
}

#[test]
fn refinement_lowers_the_error() {
    let src: Vec<u8> = vec![10, 20, 30, 40];
    let dat: Vec<u8> = vec![14, 24, 26, 36];
    let flt0: Vec<i32> = vec![160, 320, 480, 640];
    let flt1: Vec<i32> = vec![220, 380, 420, 580];
    let planes = ProjPlanes::Lowbd { src: &src, dat: &dat };
    let p = sgr_params(0);
    let mut xqd = [0, 95];
    let before = get_pixel_proj_error(&planes, 0, 2, 2, 2, 0, 2, &flt0, 2, &flt1, 2, &xqd, &p);
    let kept = finer_search_pixel_proj_error(
        &planes, 0, 2, 2, 2, 0, 2, &flt0, 2, &flt1, 2, 2, &mut [0, 95], false, &p,
    );
    assert_eq!(kept, before);
    let after =
        finer_search_pixel_proj_error(&planes, 0, 2, 2, 2, 0, 2, &flt0, 2, &flt1, 2, 2, &mut xqd, true, &p);
    assert!(after <= before);
    assert_eq!(after, get_pixel_proj_error(&planes, 0, 2, 2, 2, 0, 2, &flt0, 2, &flt1, 2, &xqd, &p));
}

#[test]
fn units_are_filtered_block_by_block() {
    let mut flt0 = vec![-1; 8];
    let mut flt1 = vec![-1; 8];
    let filter = |x: usize, y: usize, w: usize, h: usize| SgrBlock {
        flt0: vec![(10 * y + x) as i32; w * h],
        flt1: vec![(100 * w + h) as i32; w * h],
    };
    apply_sgr(3, 2, 2, 2, &mut flt0, &mut flt1, 4, &filter);
    assert_eq!(flt0, vec![0, 0, 2, -1, 0, 0, 2, -1]);
    assert_eq!(flt1, vec![202, 202, 102, -1, 202, 202, 102, -1]);
}

fn ctrls() -> SgFilterCtrls {
    SgFilterCtrls { start_ep: [0, 4], end_ep: [16, 8], ep_inc: [1, 2], refine: [false, false] }
}

#[test]
fn the_first_of_the_best_sets_is_taken() {
    let src: Vec<u8> = vec![10, 20, 30, 40];
    let planes = ProjPlanes::Lowbd { src: &src, dat: &src };
    let flat = |_ep: i32, _w: i32, _h: i32| SgrFiltered {
        flt0: vec![0; 18],
        flt1: vec![0; 18],
        xq: [0, 128],
    };
    let info = search_selfguided_restoration(&planes, 0, 2, 2, 2, 0, 2, 64, 64, &ctrls(), 0, &flat);
    // The first set that ignores the second filter keeps the samples.
    assert_eq!(info.ep, 14);
    let same = |_ep: i32, _w: i32, _h: i32| SgrFiltered {
        flt0: vec![160; 18],
        flt1: vec![160; 18],
        xq: [0, 0],
    };
    let even: Vec<u8> = vec![10; 4];
    let flat_planes = ProjPlanes::Lowbd { src: &even, dat: &even };
    let info = search_sgrproj_unit(&flat_planes, 0, 2, 2, 2, 0, 2, 1, true, true, &ctrls(), &same);
    assert_eq!(info.ep, 4);
}
