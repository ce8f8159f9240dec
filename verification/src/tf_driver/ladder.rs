//! The motion of a 64x64 block towards a reference: as a whole, in 32x32
//! blocks, and where that pays, in smaller ones.

use vstd::prelude::*;

use crate::arith::{low_i16, low_u8, unsigned_i32, wrap_i16};
use crate::temporal_filtering::blocks::{
    convert_64x64_info_to_32x32_info_mvs, derive_tf_32x32_block_split_flag, error8, flag, request, requests, splits16,
    splits32, subpel_idx_16x16, subpel_idx_32x32, subpel_idx_8x8, tf_32x32_inter_prediction_requests,
    tf_64x64_inter_prediction_request, tf_use_64x64_pred, unsearched, whole_block_deviation, FineMotion,
    TfPredictionRequest, TfSplitCtx, IDX_32X32_TO_IDX_16X16, IDX_32X32_TO_IDX_8X8,
};
use crate::temporal_filtering::kernels::TfKernelCtx;
use crate::temporal_filtering::subpel::{
    is_score, refined, refinement_never_worsens, refinement_scored, scores, subpel_params_for_block, subpel_search,
    Best, TfSearchCtrls, TfSubpelSearchParams,
};

verus! {

/// Error of a block that has not been searched.
pub const BLOCK_ERROR_INT_MAX: u64 = 0x7fff_ffff;

/// Place of each 16x16 block, counted row by row, in the order of the motion
/// search.
pub const TAB16X16: [usize; 16] = [0, 1, 4, 5, 2, 3, 6, 7, 8, 9, 12, 13, 10, 11, 14, 15];

/// Displacements, errors and splits of the parts of a block.
#[derive(Debug, Clone, Copy)]
pub struct TfSearchState {
    pub mv_64x64_x: i16,
    pub mv_64x64_y: i16,
    pub err_64x64: u64,
    pub mv_32x32_x: [i16; 4],
    pub mv_32x32_y: [i16; 4],
    pub err_32x32: [u64; 4],
    pub split_32x32: [i32; 4],
    pub mv_16x16_x: [i16; 16],
    pub mv_16x16_y: [i16; 16],
    pub err_16x16: [u64; 16],
    pub split_16x16: [[i32; 4]; 4],
    pub mv_8x8_x: [i16; 64],
    pub mv_8x8_y: [i16; 64],
    pub err_8x8: [u64; 64],
}

/// Nothing has been searched yet.
pub open spec fn is_fresh(r: TfSearchState) -> bool {
    &&& r.mv_64x64_x == 0
    &&& r.mv_64x64_y == 0
    &&& r.err_64x64 == BLOCK_ERROR_INT_MAX
    &&& r.mv_32x32_x@ == seq![0i16; 4]
    &&& r.mv_32x32_y@ == seq![0i16; 4]
    &&& r.err_32x32@ == seq![0u64; 4]
    &&& r.split_32x32@ == seq![0i32; 4]
    &&& r.mv_16x16_x@ == seq![0i16; 16]
    &&& r.mv_16x16_y@ == seq![0i16; 16]
    &&& r.err_16x16@ == seq![0u64; 16]
    &&& forall|i: int| 0 <= i < 4 ==> #[trigger] r.split_16x16[i]@ == seq![0i32; 4]
    &&& r.mv_8x8_x@ == seq![0i16; 64]
    &&& r.mv_8x8_y@ == seq![0i16; 64]
    &&& r.err_8x8@ == seq![0u64; 64]
}

impl Default for TfSearchState {
    fn default() -> (r: Self)
        ensures
            is_fresh(r),
    {
        let r: TfSearchState = TfSearchState {
            mv_64x64_x: 0,
            mv_64x64_y: 0,
            err_64x64: BLOCK_ERROR_INT_MAX,
            mv_32x32_x: [0; 4],
            mv_32x32_y: [0; 4],
            err_32x32: [0; 4],
            split_32x32: [0; 4],
            mv_16x16_x: [0; 16],
            mv_16x16_y: [0; 16],
            err_16x16: [0; 16],
            split_16x16: [[0; 4]; 4],
            mv_8x8_x: [0; 64],
            mv_8x8_y: [0; 64],
            err_8x8: [0; 64],
        };
        assert(r.mv_32x32_x@ =~= seq![0i16; 4] && r.mv_32x32_y@ =~= seq![0i16; 4]);
        assert(r.err_32x32@ =~= seq![0u64; 4] && r.split_32x32@ =~= seq![0i32; 4]);
        assert(r.mv_16x16_x@ =~= seq![0i16; 16] && r.mv_16x16_y@ =~= seq![0i16; 16]);
        assert(r.err_16x16@ =~= seq![0u64; 16]);
        assert(r.mv_8x8_x@ =~= seq![0i16; 64] && r.mv_8x8_y@ =~= seq![0i16; 64]);
        assert(r.err_8x8@ =~= seq![0u64; 64]);
        assert forall|i: int| 0 <= i < 4 implies #[trigger] r.split_16x16[i]@ == seq![0i32; 4] by {
            assert(r.split_16x16[i]@ =~= seq![0i32; 4]);
        }
        r
    }
}

/// What the motion search in whole samples found.
#[derive(Debug, Clone, Copy)]
pub struct TfMotion {
    /// Displacement of the coarse search.
    pub hme_x: i16,
    pub hme_y: i16,
    pub mv_64x64_x: i16,
    pub mv_64x64_y: i16,
    pub sad_64x64: u32,
    pub mv_32x32_x: [i16; 4],
    pub mv_32x32_y: [i16; 4],
    pub sad_32x32: [u32; 4],
    /// In the order of the motion search.
    pub mv_16x16_x: [i16; 16],
    pub mv_16x16_y: [i16; 16],
    /// Row by row.
    pub mv_8x8_x: [i16; 64],
    pub mv_8x8_y: [i16; 64],
}

/// How deep the search goes.
#[derive(Debug, Clone, Copy, PartialEq, Eq, Structural)]
pub struct TfLadderCtrls {
    /// Zero never predicts a block as a whole without a search of its
    /// quarters, 255 always does.
    pub use_pred_64x64_only_th: u8,
    /// Error below which a 32x32 block is not split.
    pub pred_error_32x32_th: u64,
    pub enable_8x8_pred: bool,
}

/// Displacements that can be refined without leaving their range.
pub open spec fn refinable(v: int) -> bool {
    -32761 <= v <= 32760
}

/// A displacement in whole samples, in eighths.
pub open spec fn eighths(v: i16) -> i16 {
    wrap_i16(8 * v) as i16
}

fn to_eighths(v: i16) -> (r: i16)
    ensures
        r == eighths(v),
{
    low_i16(v as i32 * 8)
}

/// Refines the displacement of a block between samples. Blocks of 32x32 and
/// more are interpolated with two taps where `ctrls` says so.
pub fn run_subpel<F: Fn(i16, i16, u8) -> u64>(
    bsize: u32,
    idx_x: u32,
    idx_y: u32,
    sb_origin_x: u32,
    sb_origin_y: u32,
    ctrls: &TfSearchCtrls,
    two_tap_filters: u32,
    regular_filters: u32,
    early_exit_th: u32,
    start_x: i16,
    start_y: i16,
    score: &F,
) -> (r: Best)
    requires
        bsize == 8 || bsize == 16 || bsize == 32 || bsize == 64,
        idx_x * bsize < 64,
        idx_y * bsize < 64,
        sb_origin_x as int % 0x1_0000 <= 0xffc0,
        sb_origin_y as int % 0x1_0000 <= 0xffc0,
        4096 * early_exit_th <= u32::MAX,
        is_score(*score),
        refinable(start_x as int),
        refinable(start_y as int),
    ensures
        r == refined(
            subpel_block(
                bsize,
                idx_x,
                idx_y,
                sb_origin_x as int,
                sb_origin_y as int,
                *ctrls,
                if ctrls.use_2tap && bsize >= 32 {
                    two_tap_filters
                } else {
                    regular_filters
                },
            ),
            *ctrls,
            early_exit_th,
            (Best { dist: BLOCK_ERROR_INT_MAX, x: start_x, y: start_y }),
            scores(*score),
        ),
        refinement_scored(
            subpel_block(
                bsize,
                idx_x,
                idx_y,
                sb_origin_x as int,
                sb_origin_y as int,
                *ctrls,
                if ctrls.use_2tap && bsize >= 32 {
                    two_tap_filters
                } else {
                    regular_filters
                },
            ),
            *ctrls,
            early_exit_th,
            (Best { dist: BLOCK_ERROR_INT_MAX, x: start_x, y: start_y }),
            scores(*score),
        ),
        r.dist <= BLOCK_ERROR_INT_MAX,
{
    let filters: u32 = if ctrls.use_2tap && bsize >= 32 {
        two_tap_filters
    } else {
        regular_filters
    };
    let p: TfSubpelSearchParams = subpel_params_for_block(
        bsize,
        idx_x,
        idx_y,
        sb_origin_x,
        sb_origin_y,
        ctrls,
        filters,
        8,
    );
    proof {
        assert(p.bsize * p.bsize <= 4096) by (nonlinear_arith)
            requires
                p.bsize <= 64,
        ;
        assert((p.bsize * p.bsize) * early_exit_th <= 4096 * early_exit_th) by (nonlinear_arith)
            requires
                p.bsize * p.bsize <= 4096,
        ;
    }
    let mut dist: u64 = BLOCK_ERROR_INT_MAX;
    let mut x: i16 = start_x;
    let mut y: i16 = start_y;
    subpel_search(&p, ctrls, early_exit_th, &mut dist, &mut x, &mut y, score);
    proof {
        refinement_never_worsens(
            p,
            *ctrls,
            early_exit_th,
            Best { dist: BLOCK_ERROR_INT_MAX, x: start_x, y: start_y },
            scores(*score),
        );
    }
    Best { dist, x, y }
}

/// The block that is refined: at a column and a row in units of its size, in
/// eight-bit samples.
pub open spec fn subpel_block(
    bsize: u32,
    idx_x: u32,
    idx_y: u32,
    sb_x: int,
    sb_y: int,
    c: TfSearchCtrls,
    filters: u32,
) -> TfSubpelSearchParams {
    TfSubpelSearchParams {
        subsampling_shift: c.sub_sampling_shift,
        interp_filters: filters,
        pu_origin_x: (sb_x % 0x1_0000 + idx_x * bsize) as u16,
        pu_origin_y: (sb_y % 0x1_0000 + idx_y * bsize) as u16,
        local_origin_x: (idx_x * bsize) as u16,
        local_origin_y: (idx_y * bsize) as u16,
        bsize,
        is_highbd: false,
        encoder_bit_depth: 8,
        idx_x,
        idx_y,
        mv_x: 0,
        mv_y: 0,
        xd: 0,
        yd: 0,
        subpel_pel_mode: 0,
    }
}

/// `refine` is a function of its arguments: the size of a block, its column
/// and row in units of that size, and the displacement it starts from. It
/// does not return more than the error it starts with.
pub open spec fn is_refine<R: Fn(u32, u32, u32, i16, i16) -> Best>(refine: R) -> bool {
    &&& forall|b: u32, x: u32, y: u32, vx: i16, vy: i16|
        (b == 8 || b == 16 || b == 32 || b == 64) && x * b < 64 && y * b < 64 && refinable(vx as int) && refinable(
            vy as int,
        ) ==> #[trigger] call_requires(refine, (b, x, y, vx, vy))
    &&& forall|b: u32, x: u32, y: u32, vx: i16, vy: i16, r1: Best, r2: Best| #[trigger]
        call_ensures(refine, (b, x, y, vx, vy), r1) && #[trigger] call_ensures(refine, (b, x, y, vx, vy), r2) ==> r1
            == r2
    &&& forall|b: u32, x: u32, y: u32, vx: i16, vy: i16, r: Best| #[trigger]
        call_ensures(refine, (b, x, y, vx, vy), r) ==> r.dist <= BLOCK_ERROR_INT_MAX
}

/// What `refine` returns for a block and its displacement in whole samples.
pub open spec fn best_of<R: Fn(u32, u32, u32, i16, i16) -> Best>(
    refine: R,
    b: int,
    x: int,
    y: int,
    vx: i16,
    vy: i16,
) -> Best {
    choose|r: Best| #[trigger] call_ensures(refine, (b as u32, x as u32, y as u32, eighths(vx), eighths(vy)), r)
}

/// `measure` takes the displacement of the whole block and one of its
/// quarters.
pub open spec fn is_measure<M: Fn(i16, i16, usize) -> u64>(measure: M) -> bool {
    forall|x: i16, y: i16, i: usize| i < 4 ==> #[trigger] call_requires(measure, (x, y, i))
}

/// The errors of the quarters of a block that is predicted as a whole.
pub struct QuarterErrors {
    pub is: spec_fn(i16, i16, int, u64) -> bool,
}

/// The errors that `measure` returns.
pub open spec fn errors_of<M: Fn(i16, i16, usize) -> u64>(measure: M) -> QuarterErrors {
    QuarterErrors { is: |x: i16, y: i16, i: int, e: u64| call_ensures(measure, (x, y, i as usize), e) }
}

/// Every displacement of the search can be refined.
pub open spec fn motion_fits(m: TfMotion) -> bool {
    &&& refinable(eighths(m.hme_x) as int) && refinable(eighths(m.hme_y) as int)
    &&& refinable(eighths(m.mv_64x64_x) as int) && refinable(eighths(m.mv_64x64_y) as int)
    &&& forall|i: int|
        0 <= i < 4 ==> refinable(eighths(#[trigger] m.mv_32x32_x[i]) as int) && refinable(
            eighths(m.mv_32x32_y[i]) as int,
        )
    &&& forall|i: int|
        0 <= i < 16 ==> refinable(eighths(#[trigger] m.mv_16x16_x[i]) as int) && refinable(
            eighths(m.mv_16x16_y[i]) as int,
        )
    &&& forall|i: int|
        0 <= i < 64 ==> refinable(eighths(#[trigger] m.mv_8x8_x[i]) as int) && refinable(
            eighths(m.mv_8x8_y[i]) as int,
        )
}

/// The results of refining blocks, and which of them have been found.
pub struct Refinery {
    pub best: spec_fn(int, int, int, i16, i16) -> Best,
    pub asked: spec_fn(int, int, int, i16, i16) -> bool,
}

/// The results that `refine` returns.
pub open spec fn refinery<R: Fn(u32, u32, u32, i16, i16) -> Best>(refine: R) -> Refinery {
    Refinery {
        best: |b: int, x: int, y: int, vx: i16, vy: i16| best_of(refine, b, x, y, vx, vy),
        asked: |b: int, x: int, y: int, vx: i16, vy: i16| asked(refine, b, x, y, vx, vy),
    }
}

/// `refine` has returned the result of a block.
pub open spec fn asked<R: Fn(u32, u32, u32, i16, i16) -> Best>(
    refine: R,
    b: int,
    x: int,
    y: int,
    vx: i16,
    vy: i16,
) -> bool {
    call_ensures(
        refine,
        (b as u32, x as u32, y as u32, eighths(vx), eighths(vy)),
        best_of(refine, b, x, y, vx, vy),
    )
}

/// The whole block has been searched.
pub open spec fn asked64(m: TfMotion, c: TfLadderCtrls, refine: Refinery) -> bool {
    if c.use_pred_64x64_only_th == 255 {
        (refine.asked)(64, 0, 0, m.hme_x, m.hme_y)
    } else {
        (refine.asked)(64, 0, 0, m.mv_64x64_x, m.mv_64x64_y)
    }
}

/// 32x32 block `i` has been searched.
pub open spec fn asked32(m: TfMotion, refine: Refinery, i: int) -> bool {
    (refine.asked)(32, i % 2, i / 2, m.mv_32x32_x[i], m.mv_32x32_y[i])
}

/// 16x16 block `k % 4` of 32x32 block `k / 4` has been searched.
pub open spec fn asked16(m: TfMotion, refine: Refinery, k: int) -> bool {
    let idx = k / 4;
    let i = k % 4;
    (refine.asked)(16, 2 * (idx % 2) + i % 2, 2 * (idx / 2) + i / 2, m.mv_16x16_x[k], m.mv_16x16_y[k])
}

/// 8x8 block `k % 4` of 16x16 block `k / 4 % 4` of 32x32 block `k / 16` has
/// been searched.
pub open spec fn asked8(m: TfMotion, refine: Refinery, k: int) -> bool {
    let idx = k / 16;
    let i = (k / 4) % 4;
    let j = k % 4;
    let x = 4 * (idx % 2) + 2 * (i % 2) + j % 2;
    let y = 4 * (idx / 2) + 2 * (i / 2) + j / 2;
    (refine.asked)(8, x, y, m.mv_8x8_x[8 * y + x], m.mv_8x8_y[8 * y + x])
}

/// Result of the search of the whole block.
pub open spec fn best64(m: TfMotion, c: TfLadderCtrls, refine: Refinery) -> Best {
    if c.use_pred_64x64_only_th == 255 {
        (refine.best)(64, 0, 0, m.hme_x, m.hme_y)
    } else {
        (refine.best)(64, 0, 0, m.mv_64x64_x, m.mv_64x64_y)
    }
}

/// Result of the search of 32x32 block `i`.
pub open spec fn best32(m: TfMotion, refine: Refinery, i: int) -> Best {
    (refine.best)(32, i % 2, i / 2, m.mv_32x32_x[i], m.mv_32x32_y[i])
}

/// Result of the search of 16x16 block `k % 4` of 32x32 block `k / 4`.
pub open spec fn best16(m: TfMotion, refine: Refinery, k: int) -> Best {
    let idx = k / 4;
    let i = k % 4;
    (refine.best)(16,
        2 * (idx % 2) + i % 2,
        2 * (idx / 2) + i / 2,
        m.mv_16x16_x[k],
        m.mv_16x16_y[k],
    )
}

/// Result of the search of 8x8 block `k % 4` of 16x16 block `k / 4 % 4` of
/// 32x32 block `k / 16`.
pub open spec fn best8(m: TfMotion, refine: Refinery, k: int) -> Best {
    let idx = k / 16;
    let i = (k / 4) % 4;
    let j = k % 4;
    let x = 4 * (idx % 2) + 2 * (i % 2) + j % 2;
    let y = 4 * (idx / 2) + 2 * (i / 2) + j / 2;
    (refine.best)(8, x, y, m.mv_8x8_x[8 * y + x], m.mv_8x8_y[8 * y + x])
}

/// The block is predicted as a whole for how little its quarters gain in the
/// search in whole samples.
pub open spec fn whole_by_sad(m: TfMotion, c: TfLadderCtrls) -> bool {
    c.use_pred_64x64_only_th != 0 && (c.use_pred_64x64_only_th == 255 || whole_block_deviation(
        m.sad_64x64 as int,
        (m.sad_32x32[0] + m.sad_32x32[1] + m.sad_32x32[2] + m.sad_32x32[3]) % 0x1_0000_0000,
    ) < c.use_pred_64x64_only_th)
}

/// The block is predicted as a whole for how little its quarters gain after
/// refinement.
pub open spec fn whole_by_error(
    m: TfMotion,
    c: TfLadderCtrls,
    refine: Refinery,
) -> bool {
    let whole = best64(m, c, refine).dist;
    whole * 14 < (best32(m, refine, 0).dist + best32(m, refine, 1).dist + best32(m, refine, 2).dist + best32(
        m,
        refine,
        3,
    ).dist) * 16 && whole < 0x4_0000
}

/// The block is predicted as a whole.
pub open spec fn is_whole(m: TfMotion, c: TfLadderCtrls, refine: Refinery) -> bool {
    whole_by_sad(m, c) || whole_by_error(m, c, refine)
}

/// 16x16 block `k` is as it was.
pub open spec fn same16(before: TfSearchState, after: TfSearchState, k: int) -> bool {
    &&& after.mv_16x16_x[k] == before.mv_16x16_x[k]
    &&& after.mv_16x16_y[k] == before.mv_16x16_y[k]
    &&& after.err_16x16[k] == before.err_16x16[k]
}

/// 8x8 block `k` is as it was.
pub open spec fn same8(before: TfSearchState, after: TfSearchState, k: int) -> bool {
    &&& after.mv_8x8_x[k] == before.mv_8x8_x[k]
    &&& after.mv_8x8_y[k] == before.mv_8x8_y[k]
    &&& after.err_8x8[k] == before.err_8x8[k]
}

/// 32x32 block `i` has been searched.
pub open spec fn found32(
    s: TfSearchState,
    m: TfMotion,
    refine: Refinery,
    i: int,
) -> bool {
    &&& s.mv_32x32_x[i] == best32(m, refine, i).x
    &&& s.mv_32x32_y[i] == best32(m, refine, i).y
    &&& s.err_32x32[i] == best32(m, refine, i).dist
    &&& asked32(m, refine, i)
}

/// 16x16 block `k` has been searched.
pub open spec fn found16(
    s: TfSearchState,
    m: TfMotion,
    refine: Refinery,
    k: int,
) -> bool {
    &&& s.mv_16x16_x[k] == best16(m, refine, k).x
    &&& s.mv_16x16_y[k] == best16(m, refine, k).y
    &&& s.err_16x16[k] == best16(m, refine, k).dist
    &&& asked16(m, refine, k)
}

/// 8x8 block `k` has been searched.
pub open spec fn found8(
    s: TfSearchState,
    m: TfMotion,
    refine: Refinery,
    k: int,
) -> bool {
    &&& s.mv_8x8_x[k] == best8(m, refine, k).x
    &&& s.mv_8x8_y[k] == best8(m, refine, k).y
    &&& s.err_8x8[k] == best8(m, refine, k).dist
    &&& asked8(m, refine, k)
}

/// The smaller blocks of 32x32 block `idx` are as they were.
pub open spec fn parts_kept(before: TfSearchState, after: TfSearchState, idx: int) -> bool {
    &&& forall|k: int|
        4 * idx <= k < 4 * idx + 4 ==> #[trigger] same16(before, after, k)
    &&& eighths_kept(before, after, idx)
}

/// The 8x8 blocks of 32x32 block `idx` are as they were.
pub open spec fn eighths_kept(before: TfSearchState, after: TfSearchState, idx: int) -> bool {
    forall|k: int|
        16 * idx <= k < 16 * idx + 16 ==> #[trigger] same8(before, after, k)
}

/// 32x32 block `idx` and its smaller blocks are as they were.
pub open spec fn block_kept(before: TfSearchState, after: TfSearchState, idx: int) -> bool {
    &&& after.split_32x32[idx] == before.split_32x32[idx]
    &&& after.split_16x16[idx] == before.split_16x16[idx]
    &&& parts_kept(before, after, idx)
}

/// The 16x16 blocks of 32x32 block `idx` have been searched.
pub open spec fn searched16(
    s: TfSearchState,
    m: TfMotion,
    refine: Refinery,
    idx: int,
) -> bool {
    forall|k: int|
        4 * idx <= k < 4 * idx + 4 ==> #[trigger] found16(s, m, refine, k)
}

/// The 8x8 blocks of 32x32 block `idx` have been searched.
pub open spec fn searched8(
    s: TfSearchState,
    m: TfMotion,
    refine: Refinery,
    idx: int,
) -> bool {
    forall|k: int|
        16 * idx <= k < 16 * idx + 16 ==> #[trigger] found8(s, m, refine, k)
}

/// Nothing but the smaller blocks of 32x32 block `idx` has changed.
pub open spec fn only_parts_changed(before: TfSearchState, after: TfSearchState, idx: int) -> bool {
    &&& after.mv_64x64_x == before.mv_64x64_x
    &&& after.mv_64x64_y == before.mv_64x64_y
    &&& after.err_64x64 == before.err_64x64
    &&& after.mv_32x32_x == before.mv_32x32_x
    &&& after.mv_32x32_y == before.mv_32x32_y
    &&& after.err_32x32 == before.err_32x32
    &&& forall|j: int| 0 <= j < 4 && j != idx ==> #[trigger] block_kept(before, after, j)
}

/// Searches the four 16x16 blocks of a 32x32 block.
pub fn tf_16x16_subpel<R: Fn(u32, u32, u32, i16, i16) -> Best>(
    st: &mut TfSearchState,
    idx_32x32: usize,
    motion: &TfMotion,
    refine: &R,
)
    requires
        idx_32x32 < 4,
        is_refine(*refine),
        motion_fits(*motion),
    ensures
        only_parts_changed(*old(st), *final(st), idx_32x32 as int),
        searched16(*final(st), *motion, refinery(*refine), idx_32x32 as int),
        eighths_kept(*old(st), *final(st), idx_32x32 as int),
        final(st).split_32x32 == old(st).split_32x32,
        final(st).split_16x16 == old(st).split_16x16,
{
    let ghost before = *st;
    let mut i: usize = 0;
    while i < 4
        invariant
            i <= 4,
            idx_32x32 < 4,
            is_refine(*refine),
            motion_fits(*motion),
            *st == (TfSearchState {
                mv_16x16_x: st.mv_16x16_x,
                mv_16x16_y: st.mv_16x16_y,
                err_16x16: st.err_16x16,
                ..before
            }),
            forall|k: int|
                0 <= k < 16 && !(4 * idx_32x32 <= k < 4 * idx_32x32 + i) ==> #[trigger] same16(before, *st, k),
            forall|k: int|
                4 * idx_32x32 <= k < 4 * idx_32x32 + i ==> #[trigger] found16(*st, *motion, refinery(*refine), k),
        decreases 4 - i,
    {
        let k: usize = idx_32x32 * 4 + i;
        proof {
            lemma_tab16(idx_32x32 as int, i as int);
            assert(k as int / 4 == idx_32x32 && k as int % 4 == i);
        }
        let pu_index: usize = IDX_32X32_TO_IDX_16X16[idx_32x32][i] as usize;
        let at: usize = TAB16X16[pu_index];
        let (x, y) = subpel_idx_16x16(idx_32x32, i);
        assert(refinable(eighths(motion.mv_16x16_x[k as int]) as int));
        let vx: i16 = to_eighths(motion.mv_16x16_x[at]);
        let vy: i16 = to_eighths(motion.mv_16x16_y[at]);
        let best: Best = refine(16, x, y, vx, vy);
        proof {
            let chosen = best16(*motion, refinery(*refine), k as int);
            assert(call_ensures(*refine, (16u32, x, y, vx, vy), chosen));
            assert(best == chosen);
        }
        let ghost prior = *st;
        st.mv_16x16_x[k] = best.x;
        st.mv_16x16_y[k] = best.y;
        st.err_16x16[k] = best.dist;
        proof {
            assert forall|t: int| 0 <= t < 16 && t != k implies #[trigger] same16(prior, *st, t) by {}
            assert forall|t: int| 0 <= t < 16 && !(4 * idx_32x32 <= t < 4 * idx_32x32 + i + 1) implies #[trigger] same16(
                before,
                *st,
                t,
            ) by {
                assert(same16(before, prior, t));
                assert(same16(prior, *st, t));
            }
            assert forall|t: int| 4 * idx_32x32 <= t < 4 * idx_32x32 + i + 1 implies #[trigger] found16(*st, *motion, refinery(*refine), t) by {
                if t != k {
                    assert(found16(prior, *motion, refinery(*refine), t));
                    assert(same16(prior, *st, t));
                }
            }
        }
        i = i + 1;
    }
    proof {
        assert forall|j: int| 0 <= j < 4 && j != idx_32x32 implies #[trigger] block_kept(before, *st, j) by {}
    }
}

proof fn lemma_tab16(idx: int, i: int)
    requires
        0 <= idx < 4,
        0 <= i < 4,
    ensures
        0 <= IDX_32X32_TO_IDX_16X16[idx][i] < 16,
        TAB16X16[IDX_32X32_TO_IDX_16X16[idx][i] as int] == 4 * idx + i,
{
    assert(idx == 0 || idx == 1 || idx == 2 || idx == 3);
    assert(i == 0 || i == 1 || i == 2 || i == 3);
}

proof fn lemma_tab8(a: int, b: int, c: int)
    requires
        0 <= a < 4,
        0 <= b < 4,
        0 <= c < 4,
    ensures
        0 <= IDX_32X32_TO_IDX_8X8[a][b][c] < 64,
        IDX_32X32_TO_IDX_8X8[a][b][c] == 8 * (4 * (a / 2) + 2 * (b / 2) + c / 2) + 4 * (a % 2) + 2 * (b % 2) + c % 2,
{
    assert(a == 0 || a == 1 || a == 2 || a == 3);
    assert(b == 0 || b == 1 || b == 2 || b == 3);
    assert(c == 0 || c == 1 || c == 2 || c == 3);
}

/// Searches the sixteen 8x8 blocks of a 32x32 block.
pub fn tf_8x8_subpel<R: Fn(u32, u32, u32, i16, i16) -> Best>(
    st: &mut TfSearchState,
    idx_32x32: usize,
    motion: &TfMotion,
    refine: &R,
)
    requires
        idx_32x32 < 4,
        is_refine(*refine),
        motion_fits(*motion),
    ensures
        only_parts_changed(*old(st), *final(st), idx_32x32 as int),
        searched8(*final(st), *motion, refinery(*refine), idx_32x32 as int),
        final(st).mv_16x16_x == old(st).mv_16x16_x,
        final(st).mv_16x16_y == old(st).mv_16x16_y,
        final(st).err_16x16 == old(st).err_16x16,
        final(st).split_32x32 == old(st).split_32x32,
        final(st).split_16x16 == old(st).split_16x16,
{
    let ghost before = *st;
    let mut n: usize = 0;
    while n < 16
        invariant
            n <= 16,
            idx_32x32 < 4,
            is_refine(*refine),
            motion_fits(*motion),
            *st == (TfSearchState {
                mv_8x8_x: st.mv_8x8_x,
                mv_8x8_y: st.mv_8x8_y,
                err_8x8: st.err_8x8,
                ..before
            }),
            forall|k: int|
                0 <= k < 64 && !(16 * idx_32x32 <= k < 16 * idx_32x32 + n) ==> #[trigger] same8(before, *st, k),
            forall|k: int|
                16 * idx_32x32 <= k < 16 * idx_32x32 + n ==> #[trigger] found8(*st, *motion, refinery(*refine), k),
        decreases 16 - n,
    {
        let i: usize = n / 4;
        let j: usize = n % 4;
        let k: usize = idx_32x32 * 16 + n;
        proof {
            lemma_tab8(idx_32x32 as int, i as int, j as int);
            assert(k as int / 16 == idx_32x32 && (k as int / 4) % 4 == i && k as int % 4 == j);
        }
        let at: usize = IDX_32X32_TO_IDX_8X8[idx_32x32][i][j] as usize;
        let (x, y) = subpel_idx_8x8(idx_32x32, i, j);
        assert(at == 8 * y + x);
        assert(refinable(eighths(motion.mv_8x8_x[at as int]) as int));
        let vx: i16 = to_eighths(motion.mv_8x8_x[at]);
        let vy: i16 = to_eighths(motion.mv_8x8_y[at]);
        let best: Best = refine(8, x, y, vx, vy);
        proof {
            let chosen = best8(*motion, refinery(*refine), k as int);
            assert(call_ensures(*refine, (8u32, x, y, vx, vy), chosen));
            assert(best == chosen);
        }
        let ghost prior = *st;
        st.mv_8x8_x[k] = best.x;
        st.mv_8x8_y[k] = best.y;
        st.err_8x8[k] = best.dist;
        proof {
            assert forall|t: int| 0 <= t < 64 && t != k implies #[trigger] same8(prior, *st, t) by {}
            assert forall|t: int| 0 <= t < 64 && !(16 * idx_32x32 <= t < 16 * idx_32x32 + n + 1) implies #[trigger] same8(
                before,
                *st,
                t,
            ) by {
                assert(same8(before, prior, t));
                assert(same8(prior, *st, t));
            }
            assert forall|t: int| 16 * idx_32x32 <= t < 16 * idx_32x32 + n + 1 implies #[trigger] found8(*st, *motion, refinery(*refine), t) by {
                if t != k {
                    assert(found8(prior, *motion, refinery(*refine), t));
                    assert(same8(prior, *st, t));
                }
            }
        }
        n = n + 1;
    }
    proof {
        assert forall|j: int| 0 <= j < 4 && j != idx_32x32 implies #[trigger] block_kept(before, *st, j) by {}
    }
}

/// The errors a split is decided by, for 32x32 block `idx`.
pub open spec fn decided_by(
    c: TfSplitCtx,
    m: TfMotion,
    ctrls: TfLadderCtrls,
    refine: Refinery,
    idx: int,
) -> bool {
    &&& c.idx_32x32 == idx
    &&& c.enable_8x8_pred == ctrls.enable_8x8_pred
    &&& c.tf_32x32_block_error[idx] == best32(m, refine, idx).dist
    &&& forall|k: int|
        4 * idx <= k < 4 * idx + 4 ==> #[trigger] c.tf_16x16_block_error[k] == best16(m, refine, k).dist
    &&& ctrls.enable_8x8_pred ==> forall|k: int|
        16 * idx <= k < 16 * idx + 16 ==> #[trigger] c.tf_8x8_block_error[k] == best8(m, refine, k).dist
}

/// 32x32 block `idx` is split, or not, as its errors say, and keeps the
/// errors of the parts it is predicted in.
pub open spec fn split_as(
    s: TfSearchState,
    c: TfSplitCtx,
    m: TfMotion,
    refine: Refinery,
    idx: int,
) -> bool {
    &&& s.split_32x32[idx] == flag(!unsearched(c) && splits32(c))
    &&& forall|i: int|
        0 <= i < 4 ==> #[trigger] s.split_16x16[idx][i] == flag(!unsearched(c) && splits16(c, i))
    &&& forall|k: int| 4 * idx <= k < 4 * idx + 4 ==> #[trigger] part_as(s, c, m, refine, k)
}

/// 16x16 block `k` has been searched, and keeps the error of the parts it is
/// predicted in.
pub open spec fn part_as(
    s: TfSearchState,
    c: TfSplitCtx,
    m: TfMotion,
    refine: Refinery,
    k: int,
) -> bool {
    &&& s.mv_16x16_x[k] == best16(m, refine, k).x
    &&& s.mv_16x16_y[k] == best16(m, refine, k).y
    &&& s.err_16x16[k] == if !unsearched(c) && splits16(c, k % 4) {
        error8(c, k % 4) % 0x1_0000_0000_0000_0000
    } else {
        best16(m, refine, k).dist as int
    }
    &&& asked16(m, refine, k)
}

/// 32x32 block `idx` has been decided: it stays whole where its error is low
/// enough, and else its smaller blocks are searched and it is split as their
/// errors say.
pub open spec fn block_decided(
    before: TfSearchState,
    after: TfSearchState,
    m: TfMotion,
    ctrls: TfLadderCtrls,
    refine: Refinery,
    idx: int,
) -> bool {
    if best32(m, refine, idx).dist < ctrls.pred_error_32x32_th {
        &&& after.split_32x32[idx] == 0
        &&& forall|i: int| 0 <= i < 4 ==> #[trigger] after.split_16x16[idx][i] == 0
        &&& parts_kept(before, after, idx)
    } else {
        &&& exists|c: TfSplitCtx| #[trigger]
            decided_by(c, m, ctrls, refine, idx) && split_as(after, c, m, refine, idx)
        &&& if ctrls.enable_8x8_pred {
            searched8(after, m, refine, idx)
        } else {
            eighths_kept(before, after, idx)
        }
    }
}

fn decide_split<R: Fn(u32, u32, u32, i16, i16) -> Best>(
    st: &mut TfSearchState,
    idx_32x32: usize,
    enable_8x8_pred: bool,
    Ghost(m): Ghost<TfMotion>,
    Ghost(ctrls): Ghost<TfLadderCtrls>,
    refine: &R,
)
    requires
        idx_32x32 < 4,
        enable_8x8_pred == ctrls.enable_8x8_pred,
        old(st).err_32x32[idx_32x32 as int] == best32(m, refinery(*refine), idx_32x32 as int).dist,
        searched16(*old(st), m, refinery(*refine), idx_32x32 as int),
        enable_8x8_pred ==> searched8(*old(st), m, refinery(*refine), idx_32x32 as int),
    ensures
        only_parts_changed(*old(st), *final(st), idx_32x32 as int),
        eighths_kept(*old(st), *final(st), idx_32x32 as int),
        exists|c: TfSplitCtx| #[trigger]
            decided_by(c, m, ctrls, refinery(*refine), idx_32x32 as int) && split_as(
                *final(st),
                c,
                m,
                refinery(*refine),
                idx_32x32 as int,
            ),
{
    let ghost before = *st;
    let ghost idx = idx_32x32 as int;
    let mut ctx: TfSplitCtx = TfSplitCtx {
        idx_32x32,
        enable_8x8_pred,
        tf_32x32_block_error: st.err_32x32,
        tf_16x16_block_error: st.err_16x16,
        tf_8x8_block_error: st.err_8x8,
        tf_32x32_block_split_flag: st.split_32x32,
        tf_16x16_block_split_flag: st.split_16x16,
    };
    let ghost c = ctx;
    derive_tf_32x32_block_split_flag(&mut ctx);
    st.err_16x16 = ctx.tf_16x16_block_error;
    st.split_32x32 = ctx.tf_32x32_block_split_flag;
    st.split_16x16 = ctx.tf_16x16_block_split_flag;
    proof {
        assert forall|k: int| 4 * idx <= k < 4 * idx + 4 implies #[trigger] c.tf_16x16_block_error[k] == best16(
            m,
            refinery(*refine),
            k,
        ).dist by {
            assert(found16(before, m, refinery(*refine), k));
        }
        if enable_8x8_pred {
            assert forall|k: int| 16 * idx <= k < 16 * idx + 16 implies #[trigger] c.tf_8x8_block_error[k] == best8(
                m,
                refinery(*refine),
                k,
            ).dist by {
                assert(found8(before, m, refinery(*refine), k));
            }
        }
        assert(decided_by(c, m, ctrls, refinery(*refine), idx));
        assert forall|j: int| 0 <= j < 4 && j != idx implies #[trigger] block_kept(before, *st, j) by {
            assert forall|i: int| 0 <= i < 4 implies st.split_16x16[j][i] == before.split_16x16[j][i] by {}
            assert(st.split_16x16[j] =~= before.split_16x16[j]);
        }
        assert forall|k: int| 4 * idx <= k < 4 * idx + 4 implies #[trigger] part_as(*st, c, m, refinery(*refine), k) by {
            assert(found16(before, m, refinery(*refine), k));
            assert(k / 4 == idx);
            assert(ctx.tf_16x16_block_error[k] == st.err_16x16[k]);
        }
        assert(st.split_32x32[idx] == flag(!unsearched(c) && splits32(c)));
        assert forall|i: int| 0 <= i < 4 implies #[trigger] st.split_16x16[idx][i] == flag(
            !unsearched(c) && splits16(c, i),
        ) by {
            assert(ctx.tf_16x16_block_split_flag[idx][i] == st.split_16x16[idx][i]);
        }
        assert(split_as(*st, c, m, refinery(*refine), idx));
    }
}

/// Decides a 32x32 block, and searches its smaller blocks where it may be
/// split.
pub fn decide_block<R: Fn(u32, u32, u32, i16, i16) -> Best>(
    st: &mut TfSearchState,
    idx_32x32: usize,
    motion: &TfMotion,
    ctrls: &TfLadderCtrls,
    refine: &R,
)
    requires
        idx_32x32 < 4,
        is_refine(*refine),
        motion_fits(*motion),
        old(st).err_32x32[idx_32x32 as int] == best32(*motion, refinery(*refine), idx_32x32 as int).dist,
    ensures
        only_parts_changed(*old(st), *final(st), idx_32x32 as int),
        block_decided(*old(st), *final(st), *motion, *ctrls, refinery(*refine), idx_32x32 as int),
{
    let ghost before = *st;
    if st.err_32x32[idx_32x32] < ctrls.pred_error_32x32_th {
        st.split_32x32[idx_32x32] = 0;
        st.split_16x16[idx_32x32] = [0; 4];
        proof {
            assert forall|j: int| 0 <= j < 4 && j != idx_32x32 implies #[trigger] block_kept(before, *st, j) by {}
        }
    } else {
        tf_16x16_subpel(st, idx_32x32, motion, refine);
        let ghost s1 = *st;
        if ctrls.enable_8x8_pred {
            tf_8x8_subpel(st, idx_32x32, motion, refine);
        }
        let ghost s2 = *st;
        proof {
            let idx = idx_32x32 as int;
            assert forall|k: int| 4 * idx <= k < 4 * idx + 4 implies #[trigger] found16(s2, *motion, refinery(*refine), k) by {
                assert(found16(s1, *motion, refinery(*refine), k));
            }
        }
        decide_split(st, idx_32x32, ctrls.enable_8x8_pred, Ghost(*motion), Ghost(*ctrls), refine);
        proof {
            assert forall|j: int| 0 <= j < 4 && j != idx_32x32 implies #[trigger] block_kept(before, *st, j) by {
                assert(block_kept(before, s1, j));
                assert(block_kept(s1, s2, j));
                assert(block_kept(s2, *st, j));
                lemma_block_kept(before, s1, s2, j);
                lemma_block_kept(before, s2, *st, j);
            }
            let idx = idx_32x32 as int;
            if ctrls.enable_8x8_pred {
                assert forall|k: int| 16 * idx <= k < 16 * idx + 16 implies #[trigger] found8(
                    *st,
                    *motion,
                    refinery(*refine),
                    k,
                ) by {
                    assert(found8(s2, *motion, refinery(*refine), k));
                    assert(same8(s2, *st, k));
                }
            } else {
                lemma_eighths_kept(before, s2, *st, idx);
            }
        }
    }
}

/// The block has been searched.
pub open spec fn searched(
    before: TfSearchState,
    after: TfSearchState,
    m: TfMotion,
    c: TfLadderCtrls,
    refine: Refinery,
    measure: QuarterErrors,
) -> bool {
    let whole = best64(m, c, refine);
    &&& after.mv_64x64_x == whole.x
    &&& after.mv_64x64_y == whole.y
    &&& after.err_64x64 == whole.dist
    &&& asked64(m, c, refine)
    &&& !whole_by_sad(m, c) ==> forall|i: int| 0 <= i < 4 ==> #[trigger] asked32(m, refine, i)
    &&& if is_whole(m, c, refine) {
        forall|i: int| 0 <= i < 4 ==> #[trigger] quarter_whole(before, after, whole, measure, i)
    } else {
        forall|i: int| 0 <= i < 4 ==> #[trigger] quarter_decided(before, after, m, c, refine, i)
    }
}

/// 32x32 block `i` takes part in the prediction of the whole block.
pub open spec fn quarter_whole(
    before: TfSearchState,
    after: TfSearchState,
    whole: Best,
    measure: QuarterErrors,
    i: int,
) -> bool {
    &&& after.mv_32x32_x[i] == whole.x
    &&& after.mv_32x32_y[i] == whole.y
    &&& (measure.is)(whole.x, whole.y, i, after.err_32x32[i])
    &&& after.split_32x32[i] == 0
    &&& forall|j: int| 0 <= j < 4 ==> #[trigger] after.split_16x16[i][j] == 0
    &&& parts_kept(before, after, i)
}

/// 32x32 block `i` has been searched and decided.
pub open spec fn quarter_decided(
    before: TfSearchState,
    after: TfSearchState,
    m: TfMotion,
    c: TfLadderCtrls,
    refine: Refinery,
    i: int,
) -> bool {
    &&& after.mv_32x32_x[i] == best32(m, refine, i).x
    &&& after.mv_32x32_y[i] == best32(m, refine, i).y
    &&& after.err_32x32[i] == best32(m, refine, i).dist
    &&& block_decided(before, after, m, c, refine, i)
}

/// Searches the whole block.
fn search_64x64<R: Fn(u32, u32, u32, i16, i16) -> Best>(
    st: &mut TfSearchState,
    motion: &TfMotion,
    ctrls: &TfLadderCtrls,
    refine: &R,
)
    requires
        is_refine(*refine),
        motion_fits(*motion),
    ensures
        *final(st) == (TfSearchState {
            mv_64x64_x: best64(*motion, *ctrls, refinery(*refine)).x,
            mv_64x64_y: best64(*motion, *ctrls, refinery(*refine)).y,
            err_64x64: best64(*motion, *ctrls, refinery(*refine)).dist,
            ..*old(st)
        }),
        final(st).err_64x64 <= BLOCK_ERROR_INT_MAX,
        asked64(*motion, *ctrls, refinery(*refine)),
{
    let (x, y): (i16, i16) = if ctrls.use_pred_64x64_only_th == 255 {
        (motion.hme_x, motion.hme_y)
    } else {
        (motion.mv_64x64_x, motion.mv_64x64_y)
    };
    let vx: i16 = to_eighths(x);
    let vy: i16 = to_eighths(y);
    let best: Best = refine(64, 0, 0, vx, vy);
    proof {
        let chosen = best64(*motion, *ctrls, refinery(*refine));
        assert(call_ensures(*refine, (64u32, 0u32, 0u32, vx, vy), chosen));
    }
    st.mv_64x64_x = best.x;
    st.mv_64x64_y = best.y;
    st.err_64x64 = best.dist;
}

/// Searches the four 32x32 blocks.
#[verifier::spinoff_prover]
fn search_32x32<R: Fn(u32, u32, u32, i16, i16) -> Best>(st: &mut TfSearchState, motion: &TfMotion, refine: &R)
    requires
        is_refine(*refine),
        motion_fits(*motion),
    ensures
        *final(st) == (TfSearchState {
            mv_32x32_x: final(st).mv_32x32_x,
            mv_32x32_y: final(st).mv_32x32_y,
            err_32x32: final(st).err_32x32,
            ..*old(st)
        }),
        forall|i: int|
            0 <= i < 4 ==> #[trigger] found32(*final(st), *motion, refinery(*refine), i) && best32(*motion, refinery(*refine), i).dist
                <= BLOCK_ERROR_INT_MAX,
{
    let ghost before = *st;
    let mut n: usize = 0;
    while n < 4
        invariant
            n <= 4,
            is_refine(*refine),
            motion_fits(*motion),
            *st == (TfSearchState {
                mv_32x32_x: st.mv_32x32_x,
                mv_32x32_y: st.mv_32x32_y,
                err_32x32: st.err_32x32,
                ..before
            }),
            forall|i: int|
                0 <= i < n ==> #[trigger] found32(*st, *motion, refinery(*refine), i) && best32(
                    *motion,
                    refinery(*refine),
                    i,
                ).dist <= BLOCK_ERROR_INT_MAX,
        decreases 4 - n,
    {
        let (x, y) = subpel_idx_32x32(n as u32);
        assert(refinable(eighths(motion.mv_32x32_x[n as int]) as int));
        let vx: i16 = to_eighths(motion.mv_32x32_x[n]);
        let vy: i16 = to_eighths(motion.mv_32x32_y[n]);
        let best: Best = refine(32, x, y, vx, vy);
        proof {
            let chosen = best32(*motion, refinery(*refine), n as int);
            assert(call_ensures(*refine, (32u32, x, y, vx, vy), chosen));
            assert(best == chosen);
        }
        let ghost prior = *st;
        st.mv_32x32_x[n] = best.x;
        st.mv_32x32_y[n] = best.y;
        st.err_32x32[n] = best.dist;
        proof {
            assert forall|t: int| 0 <= t < n + 1 implies #[trigger] found32(*st, *motion, refinery(*refine), t) && best32(
                *motion,
                refinery(*refine),
                t,
            ).dist <= BLOCK_ERROR_INT_MAX by {
                if t != n {
                    assert(found32(prior, *motion, refinery(*refine), t));
                } else {
                    assert(asked32(*motion, refinery(*refine), t));
                }
            }
        }
        n = n + 1;
    }
    proof {
        assert forall|i: int| 0 <= i < 4 implies #[trigger] found32(*st, *motion, refinery(*refine), i) && best32(
            *motion,
            refinery(*refine),
            i,
        ).dist <= BLOCK_ERROR_INT_MAX by {
            assert(n == 4);
        }
    }
}

/// Hands the displacement of the whole block to its quarters, and measures
/// the error of each.
pub fn convert_64x64_info<M: Fn(i16, i16, usize) -> u64>(st: &mut TfSearchState, measure: &M)
    requires
        is_measure(*measure),
    ensures
        converted(*old(st), *final(st), errors_of(*measure)),
{
    let ghost before = *st;
    let x: i16 = st.mv_64x64_x;
    let y: i16 = st.mv_64x64_y;
    convert_64x64_info_to_32x32_info_mvs(
        x,
        y,
        &mut st.mv_32x32_x,
        &mut st.mv_32x32_y,
        &mut st.split_32x32,
        &mut st.split_16x16,
    );
    let ghost handed = *st;
    let mut n: usize = 0;
    while n < 4
        invariant
            n <= 4,
            is_measure(*measure),
            *st == (TfSearchState { err_32x32: st.err_32x32, ..handed }),
            forall|i: int| 0 <= i < n ==> call_ensures(*measure, (x, y, i as usize), #[trigger] st.err_32x32[i]),
        decreases 4 - n,
    {
        let e: u64 = measure(x, y, n);
        st.err_32x32[n] = e;
        n = n + 1;
    }
    proof {
        let whole = Best { dist: 0, x: before.mv_64x64_x, y: before.mv_64x64_y };
        assert forall|i: int| 0 <= i < 4 implies #[trigger] quarter_whole(before, *st, whole, errors_of(*measure), i) by {
            assert(handed.mv_32x32_x@[i] == x);
            assert(handed.mv_32x32_y@[i] == y);
            assert(handed.split_32x32@[i] == 0);
            assert(call_ensures(*measure, (x, y, i as usize), st.err_32x32[i]));
            assert forall|j: int| 0 <= j < 4 implies #[trigger] st.split_16x16[i][j] == 0 by {
                assert(handed.split_16x16@[i][j] == 0);
            }
        }
    }
}

proof fn lemma_decided_kept(
    before: TfSearchState,
    mid: TfSearchState,
    after: TfSearchState,
    m: TfMotion,
    c: TfLadderCtrls,
    refine: Refinery,
    idx: int,
)
    requires
        0 <= idx < 4,
        block_decided(before, mid, m, c, refine, idx),
        block_kept(mid, after, idx),
    ensures
        block_decided(before, after, m, c, refine, idx),
{
    assert forall|k: int| 4 * idx <= k < 4 * idx + 4 implies #[trigger] same16(mid, after, k) by {}
    if best32(m, refine, idx).dist < c.pred_error_32x32_th {
        assert forall|k: int| 4 * idx <= k < 4 * idx + 4 implies #[trigger] same16(before, after, k) by {
            assert(same16(before, mid, k));
            assert(same16(mid, after, k));
        }
        lemma_eighths_kept(before, mid, after, idx);
        assert forall|i: int| 0 <= i < 4 implies #[trigger] after.split_16x16[idx][i] == 0 by {
            assert(mid.split_16x16[idx][i] == 0);
        }
    } else {
        let ctx = choose|ctx: TfSplitCtx| #[trigger]
            decided_by(ctx, m, c, refine, idx) && split_as(mid, ctx, m, refine, idx);
        assert forall|k: int| 4 * idx <= k < 4 * idx + 4 implies #[trigger] part_as(after, ctx, m, refine, k) by {
            assert(part_as(mid, ctx, m, refine, k));
            assert(same16(mid, after, k));
        }
        assert forall|i: int| 0 <= i < 4 implies #[trigger] after.split_16x16[idx][i] == flag(
            !unsearched(ctx) && splits16(ctx, i),
        ) by {
            assert(mid.split_16x16[idx][i] == after.split_16x16[idx][i]);
        }
        assert(split_as(after, ctx, m, refine, idx));
        if c.enable_8x8_pred {
            assert forall|k: int| 16 * idx <= k < 16 * idx + 16 implies #[trigger] found8(after, m, refine, k) by {
                assert(same8(mid, after, k));
                assert(found8(mid, m, refine, k));
            }
        } else {
            lemma_eighths_kept(before, mid, after, idx);
        }
    }
}

proof fn lemma_block_kept(before: TfSearchState, mid: TfSearchState, after: TfSearchState, idx: int)
    requires
        block_kept(before, mid, idx),
        block_kept(mid, after, idx),
    ensures
        block_kept(before, after, idx),
{
    lemma_eighths_kept(before, mid, after, idx);
    assert forall|k: int| 4 * idx <= k < 4 * idx + 4 implies #[trigger] same16(before, after, k) by {
        assert(same16(before, mid, k));
        assert(same16(mid, after, k));
    }
}

proof fn lemma_eighths_kept(before: TfSearchState, mid: TfSearchState, after: TfSearchState, idx: int)
    requires
        eighths_kept(before, mid, idx),
        eighths_kept(mid, after, idx),
    ensures
        eighths_kept(before, after, idx),
{
    assert forall|k: int| 16 * idx <= k < 16 * idx + 16 implies #[trigger] same8(before, after, k) by {
        assert(same8(before, mid, k));
        assert(same8(mid, after, k));
    }
}

proof fn lemma_decided_from(
    before: TfSearchState,
    mid: TfSearchState,
    after: TfSearchState,
    m: TfMotion,
    c: TfLadderCtrls,
    refine: Refinery,
    idx: int,
)
    requires
        0 <= idx < 4,
        block_kept(before, mid, idx),
        block_decided(mid, after, m, c, refine, idx),
    ensures
        block_decided(before, after, m, c, refine, idx),
{
    if best32(m, refine, idx).dist < c.pred_error_32x32_th {
        assert forall|k: int| 4 * idx <= k < 4 * idx + 4 implies #[trigger] same16(before, after, k) by {
            assert(same16(before, mid, k));
            assert(same16(mid, after, k));
        }
        lemma_eighths_kept(before, mid, after, idx);
    } else if !c.enable_8x8_pred {
        lemma_eighths_kept(before, mid, after, idx);
    }
}

/// Decides the four 32x32 blocks.
fn decide_blocks<R: Fn(u32, u32, u32, i16, i16) -> Best>(
    st: &mut TfSearchState,
    motion: &TfMotion,
    ctrls: &TfLadderCtrls,
    refine: &R,
)
    requires
        is_refine(*refine),
        motion_fits(*motion),
        forall|i: int| 0 <= i < 4 ==> #[trigger] old(st).err_32x32[i] == best32(*motion, refinery(*refine), i).dist,
    ensures
        final(st).mv_64x64_x == old(st).mv_64x64_x,
        final(st).mv_64x64_y == old(st).mv_64x64_y,
        final(st).err_64x64 == old(st).err_64x64,
        final(st).mv_32x32_x == old(st).mv_32x32_x,
        final(st).mv_32x32_y == old(st).mv_32x32_y,
        final(st).err_32x32 == old(st).err_32x32,
        forall|i: int| 0 <= i < 4 ==> #[trigger] block_decided(*old(st), *final(st), *motion, *ctrls, refinery(*refine), i),
{
    let ghost before = *st;
    let mut n: usize = 0;
    while n < 4
        invariant
            n <= 4,
            is_refine(*refine),
            motion_fits(*motion),
            forall|i: int| 0 <= i < 4 ==> #[trigger] before.err_32x32[i] == best32(*motion, refinery(*refine), i).dist,
            st.mv_64x64_x == before.mv_64x64_x,
            st.mv_64x64_y == before.mv_64x64_y,
            st.err_64x64 == before.err_64x64,
            st.mv_32x32_x == before.mv_32x32_x,
            st.mv_32x32_y == before.mv_32x32_y,
            st.err_32x32 == before.err_32x32,
            forall|i: int| 0 <= i < n ==> #[trigger] block_decided(before, *st, *motion, *ctrls, refinery(*refine), i),
            forall|i: int| n <= i < 4 ==> #[trigger] block_kept(before, *st, i),
        decreases 4 - n,
    {
        let ghost mid = *st;
        assert(before.err_32x32[n as int] == best32(*motion, refinery(*refine), n as int).dist);
        decide_block(st, n, motion, ctrls, refine);
        proof {
            assert(block_kept(before, mid, n as int));
            lemma_decided_from(before, mid, *st, *motion, *ctrls, refinery(*refine), n as int);
            assert forall|i: int| 0 <= i < n + 1 implies #[trigger] block_decided(
                before,
                *st,
                *motion,
                *ctrls,
                refinery(*refine),
                i,
            ) by {
                if i < n {
                    assert(block_kept(mid, *st, i));
                    lemma_decided_kept(before, mid, *st, *motion, *ctrls, refinery(*refine), i);
                }
            }
            assert forall|i: int| n + 1 <= i < 4 implies #[trigger] block_kept(before, *st, i) by {
                assert(block_kept(before, mid, i));
                assert(block_kept(mid, *st, i));
                lemma_block_kept(before, mid, *st, i);
            }
        }
        n = n + 1;
    }
}

proof fn lemma_from_searched(
    before: TfSearchState,
    mid: TfSearchState,
    after: TfSearchState,
    m: TfMotion,
    c: TfLadderCtrls,
    refine: Refinery,
    i: int,
)
    requires
        0 <= i < 4,
        mid == (TfSearchState {
            mv_64x64_x: mid.mv_64x64_x,
            mv_64x64_y: mid.mv_64x64_y,
            err_64x64: mid.err_64x64,
            mv_32x32_x: mid.mv_32x32_x,
            mv_32x32_y: mid.mv_32x32_y,
            err_32x32: mid.err_32x32,
            ..before
        }),
        block_decided(mid, after, m, c, refine, i),
    ensures
        block_decided(before, after, m, c, refine, i),
{
    assert(block_kept(before, mid, i));
    lemma_decided_from(before, mid, after, m, c, refine, i);
}

/// A block has been searched in all its sizes: as a whole, in quarters, and in
/// smaller blocks where a quarter may be split. Of one that is predicted as a
/// whole, the quarters are still to take over its displacement.
pub open spec fn sized(
    before: TfSearchState,
    after: TfSearchState,
    m: TfMotion,
    c: TfLadderCtrls,
    refine: Refinery,
) -> bool {
    let whole = best64(m, c, refine);
    &&& after.mv_64x64_x == whole.x
    &&& after.mv_64x64_y == whole.y
    &&& after.err_64x64 == whole.dist
    &&& asked64(m, c, refine)
    &&& !whole_by_sad(m, c) ==> forall|i: int| 0 <= i < 4 ==> #[trigger] asked32(m, refine, i)
    &&& if is_whole(m, c, refine) {
        after == (TfSearchState {
            mv_64x64_x: after.mv_64x64_x,
            mv_64x64_y: after.mv_64x64_y,
            err_64x64: after.err_64x64,
            mv_32x32_x: after.mv_32x32_x,
            mv_32x32_y: after.mv_32x32_y,
            err_32x32: after.err_32x32,
            ..before
        })
    } else {
        forall|i: int| 0 <= i < 4 ==> #[trigger] quarter_decided(before, after, m, c, refine, i)
    }
}

/// The quarters of a block have taken over its displacement.
pub open spec fn converted(before: TfSearchState, after: TfSearchState, measure: QuarterErrors) -> bool {
    &&& after.mv_64x64_x == before.mv_64x64_x
    &&& after.mv_64x64_y == before.mv_64x64_y
    &&& after.err_64x64 == before.err_64x64
    &&& forall|i: int|
        0 <= i < 4 ==> #[trigger] quarter_whole(
            before,
            after,
            (Best { dist: 0, x: before.mv_64x64_x, y: before.mv_64x64_y }),
            measure,
            i,
        )
}

/// A block that is predicted as a whole has been searched once its quarters
/// have taken over its displacement.
pub proof fn lemma_converted(
    before: TfSearchState,
    mid: TfSearchState,
    after: TfSearchState,
    m: TfMotion,
    c: TfLadderCtrls,
    refine: Refinery,
    measure: QuarterErrors,
)
    requires
        sized(before, mid, m, c, refine),
        is_whole(m, c, refine),
        converted(mid, after, measure),
    ensures
        searched(before, after, m, c, refine, measure),
{
    let whole = best64(m, c, refine);
    let w = Best { dist: 0, x: mid.mv_64x64_x, y: mid.mv_64x64_y };
    assert forall|i: int| 0 <= i < 4 implies #[trigger] quarter_whole(before, after, whole, measure, i) by {
        assert(quarter_whole(mid, after, w, measure, i));
        assert(parts_kept(mid, after, i));
        assert forall|k: int| 4 * i <= k < 4 * i + 4 implies #[trigger] same16(before, after, k) by {
            assert(same16(mid, after, k));
        }
        assert(eighths_kept(before, mid, i));
        lemma_eighths_kept(before, mid, after, i);
    }
}

/// Searches a block in all its sizes. True where it is predicted as a whole.
pub fn search_sizes<R: Fn(u32, u32, u32, i16, i16) -> Best>(
    st: &mut TfSearchState,
    motion: &TfMotion,
    ctrls: &TfLadderCtrls,
    refine: &R,
) -> (r: bool)
    requires
        is_refine(*refine),
        motion_fits(*motion),
    ensures
        r == is_whole(*motion, *ctrls, refinery(*refine)),
        sized(*old(st), *final(st), *motion, *ctrls, refinery(*refine)),
{
    let ghost before = *st;
    let by_sad: bool = ctrls.use_pred_64x64_only_th != 0 && (ctrls.use_pred_64x64_only_th == 255 || tf_use_64x64_pred(
        motion.sad_64x64,
        &motion.sad_32x32,
        ctrls.use_pred_64x64_only_th as i64,
    ) != 0);
    search_64x64(st, motion, ctrls, refine);
    let mut is_one: bool = by_sad;
    if !by_sad {
        search_32x32(st, motion, refine);
        proof {
            assert forall|i: int| 0 <= i < 4 implies #[trigger] st.err_32x32[i] == best32(
                *motion,
                refinery(*refine),
                i,
            ).dist && best32(*motion, refinery(*refine), i).dist <= BLOCK_ERROR_INT_MAX by {
                assert(found32(*st, *motion, refinery(*refine), i));
            }
            assert forall|i: int| 0 <= i < 4 implies #[trigger] asked32(*motion, refinery(*refine), i) by {
                assert(found32(*st, *motion, refinery(*refine), i));
            }
            assert(st.err_32x32[0] == best32(*motion, refinery(*refine), 0).dist);
            assert(st.err_32x32[1] == best32(*motion, refinery(*refine), 1).dist);
            assert(st.err_32x32[2] == best32(*motion, refinery(*refine), 2).dist);
            assert(st.err_32x32[3] == best32(*motion, refinery(*refine), 3).dist);
        }
        let sum: u64 = st.err_32x32[0] + st.err_32x32[1] + st.err_32x32[2] + st.err_32x32[3];
        is_one = st.err_64x64 * 14 < sum * 16 && st.err_64x64 < 0x4_0000;
    }
    let ghost s2 = *st;
    assert(is_one == is_whole(*motion, *ctrls, refinery(*refine)));
    if !is_one {
        decide_blocks(st, motion, ctrls, refine);
        proof {
            assert forall|i: int| 0 <= i < 4 implies #[trigger] quarter_decided(
                before,
                *st,
                *motion,
                *ctrls,
                refinery(*refine),
                i,
            ) by {
                assert(block_decided(s2, *st, *motion, *ctrls, refinery(*refine), i));
                lemma_from_searched(before, s2, *st, *motion, *ctrls, refinery(*refine), i);
                assert(found32(s2, *motion, refinery(*refine), i));
            }
        }
    }
    is_one
}

/// `a` and `b` agree on every result that `a` has found.
pub open spec fn refineries_agree(a: Refinery, b: Refinery) -> bool {
    forall|size: int, x: int, y: int, vx: i16, vy: i16| #[trigger]
        (a.asked)(size, x, y, vx, vy) ==> (a.best)(size, x, y, vx, vy) == (b.best)(size, x, y, vx, vy) && (b.asked)(
            size,
            x,
            y,
            vx,
            vy,
        )
}

proof fn lemma_same_decision(
    before: TfSearchState,
    after: TfSearchState,
    m: TfMotion,
    c: TfLadderCtrls,
    a: Refinery,
    b: Refinery,
    i: int,
)
    requires
        0 <= i < 4,
        refineries_agree(a, b),
        asked32(m, a, i),
        quarter_decided(before, after, m, c, a, i),
    ensures
        quarter_decided(before, after, m, c, b, i),
{
    assert(best32(m, a, i) == best32(m, b, i));
    if best32(m, a, i).dist >= c.pred_error_32x32_th {
        let by = choose|by: TfSplitCtx| #[trigger] decided_by(by, m, c, a, i) && split_as(after, by, m, a, i);
        assert forall|k: int| 4 * i <= k < 4 * i + 4 implies #[trigger] part_as(after, by, m, b, k) && best16(m, a, k)
            == best16(m, b, k) by {
            assert(part_as(after, by, m, a, k));
        }
        if c.enable_8x8_pred {
            assert forall|k: int| 16 * i <= k < 16 * i + 16 implies #[trigger] found8(after, m, b, k) && best8(m, a, k)
                == best8(m, b, k) by {
                assert(found8(after, m, a, k));
            }
        }
        assert(decided_by(by, m, c, b, i)) by {
            assert forall|k: int| 4 * i <= k < 4 * i + 4 implies #[trigger] by.tf_16x16_block_error[k] == best16(
                m,
                b,
                k,
            ).dist by {
                assert(part_as(after, by, m, b, k));
            }
            if c.enable_8x8_pred {
                assert forall|k: int| 16 * i <= k < 16 * i + 16 implies #[trigger] by.tf_8x8_block_error[k] == best8(
                    m,
                    b,
                    k,
                ).dist by {
                    assert(found8(after, m, b, k));
                }
            }
        }
        assert(split_as(after, by, m, b, i));
    }
}

/// A search depends only on the refinements that it asks for.
pub proof fn searches_read_what_they_find(
    before: TfSearchState,
    after: TfSearchState,
    m: TfMotion,
    c: TfLadderCtrls,
    a: Refinery,
    b: Refinery,
)
    requires
        refineries_agree(a, b),
        sized(before, after, m, c, a),
    ensures
        is_whole(m, c, a) == is_whole(m, c, b),
        sized(before, after, m, c, b),
{
    assert(asked64(m, c, a) && best64(m, c, a) == best64(m, c, b));
    if !whole_by_sad(m, c) {
        assert forall|i: int| 0 <= i < 4 implies #[trigger] asked32(m, b, i) && best32(m, a, i) == best32(m, b, i) by {
            assert(asked32(m, a, i));
        }
        assert(asked32(m, b, 0) && asked32(m, b, 1) && asked32(m, b, 2) && asked32(m, b, 3));
    }
    if !is_whole(m, c, a) {
        assert forall|i: int| 0 <= i < 4 implies #[trigger] quarter_decided(before, after, m, c, b, i) by {
            assert(asked32(m, a, i));
            assert(quarter_decided(before, after, m, c, a, i));
            lemma_same_decision(before, after, m, c, a, b, i);
        }
    }
}

/// Searches a block: as a whole, in quarters, and in smaller blocks where a
/// quarter may be split. True where it is predicted as a whole.
pub fn search_block<R: Fn(u32, u32, u32, i16, i16) -> Best, M: Fn(i16, i16, usize) -> u64>(
    st: &mut TfSearchState,
    motion: &TfMotion,
    ctrls: &TfLadderCtrls,
    refine: &R,
    measure: &M,
) -> (r: bool)
    requires
        is_refine(*refine),
        is_measure(*measure),
        motion_fits(*motion),
    ensures
        r == is_whole(*motion, *ctrls, refinery(*refine)),
        searched(*old(st), *final(st), *motion, *ctrls, refinery(*refine), errors_of(*measure)),
{
    let ghost before = *st;
    let whole: bool = search_sizes(st, motion, ctrls, refine);
    let ghost mid = *st;
    if whole {
        convert_64x64_info(st, measure);
        proof {
            lemma_converted(before, mid, *st, *motion, *ctrls, refinery(*refine), errors_of(*measure));
        }
    }
    whole
}

/// What the kernels read of the state of a search, for one 32x32 block.
pub open spec fn kernel_view(
    s: TfSearchState,
    col: i32,
    row: i32,
    th: u32,
    chroma: bool,
    decay: [u32; 3],
) -> TfKernelCtx {
    TfKernelCtx {
        tf_block_col: col,
        tf_block_row: row,
        tf_mv_dist_th: th,
        tf_chroma: chroma,
        tf_32x32_block_split_flag: [
            (s.split_32x32[0] % 256) as u8,
            (s.split_32x32[1] % 256) as u8,
            (s.split_32x32[2] % 256) as u8,
            (s.split_32x32[3] % 256) as u8,
        ],
        tf_16x16_mv_x: s.mv_16x16_x,
        tf_16x16_mv_y: s.mv_16x16_y,
        tf_16x16_block_error: s.err_16x16,
        tf_32x32_mv_x: s.mv_32x32_x,
        tf_32x32_mv_y: s.mv_32x32_y,
        tf_32x32_block_error: s.err_32x32,
        tf_decay_factor_fp16: decay,
    }
}

impl TfSearchState {
    /// What the kernels read of the state, for a 32x32 block.
    pub fn kernel_ctx(
        &self,
        block_col: i32,
        block_row: i32,
        tf_mv_dist_th: u32,
        tf_chroma: bool,
        decay: [u32; 3],
    ) -> (r: TfKernelCtx)
        ensures
            r == kernel_view(*self, block_col, block_row, tf_mv_dist_th, tf_chroma, decay),
    {
        let flags: [u8; 4] = [
            low_byte(self.split_32x32[0]),
            low_byte(self.split_32x32[1]),
            low_byte(self.split_32x32[2]),
            low_byte(self.split_32x32[3]),
        ];
        proof {
            let view = kernel_view(*self, block_col, block_row, tf_mv_dist_th, tf_chroma, decay);
            assert(flags =~= view.tf_32x32_block_split_flag);
        }
        TfKernelCtx {
            tf_block_col: block_col,
            tf_block_row: block_row,
            tf_mv_dist_th,
            tf_chroma,
            tf_32x32_block_split_flag: flags,
            tf_16x16_mv_x: self.mv_16x16_x,
            tf_16x16_mv_y: self.mv_16x16_y,
            tf_16x16_block_error: self.err_16x16,
            tf_32x32_mv_x: self.mv_32x32_x,
            tf_32x32_mv_y: self.mv_32x32_y,
            tf_32x32_block_error: self.err_32x32,
            tf_decay_factor_fp16: decay,
        }
    }
}

fn low_byte(x: i32) -> (r: u8)
    ensures
        r == x % 256,
{
    let u: u32 = unsigned_i32(x);
    low_u8(u)
}

/// The displacements of the 8x8 blocks, and which 16x16 blocks use them.
pub open spec fn fine_motion(s: TfSearchState) -> FineMotion {
    FineMotion { split: s.split_16x16, mv_x: s.mv_8x8_x, mv_y: s.mv_8x8_y }
}

/// The predictions of the first `n` 32x32 blocks.
pub open spec fn block_requests(s: TfSearchState, n: int, sb_x: int, sb_y: int) -> Seq<TfPredictionRequest>
    decreases n,
{
    if n <= 0 {
        Seq::empty()
    } else {
        block_requests(s, n - 1, sb_x, sb_y) + requests(
            kernel_view(s, 0, 0, 0, false, [0u32, 0u32, 0u32]),
            fine_motion(s),
            n - 1,
            sb_x,
            sb_y,
        )
    }
}

/// The predictions of a searched block: one of the whole, or those of its
/// quarters.
pub open spec fn searched_requests(s: TfSearchState, whole: bool, sb_x: int, sb_y: int) -> Seq<TfPredictionRequest> {
    if whole {
        seq![request(64, 0, 0, s.mv_64x64_x, s.mv_64x64_y, sb_x, sb_y)]
    } else {
        block_requests(s, 4, sb_x, sb_y)
    }
}

/// The predictions of a searched block: one of the whole, or those of its
/// quarters.
pub fn tf_block_requests(st: &TfSearchState, whole: bool, sb_origin_x: u32, sb_origin_y: u32) -> (out: Vec<
    TfPredictionRequest,
>)
    requires
        sb_origin_x % 0x1_0000 <= 0xffc0,
        sb_origin_y % 0x1_0000 <= 0xffc0,
    ensures
        out@ == searched_requests(*st, whole, sb_origin_x as int, sb_origin_y as int),
{
    let mut out: Vec<TfPredictionRequest> = Vec::new();
    if whole {
        out.push(tf_64x64_inter_prediction_request(sb_origin_x, sb_origin_y, st.mv_64x64_x, st.mv_64x64_y));
        return out;
    }
    let ctx: TfKernelCtx = st.kernel_ctx(0, 0, 0, false, [0, 0, 0]);
    proof {
        assert(ctx.tf_decay_factor_fp16 =~= [0u32, 0u32, 0u32]);
    }
    let mut n: usize = 0;
    while n < 4
        invariant
            n <= 4,
            ctx == kernel_view(*st, 0, 0, 0, false, [0u32, 0u32, 0u32]),
            sb_origin_x % 0x1_0000 <= 0xffc0,
            sb_origin_y % 0x1_0000 <= 0xffc0,
            out@ == block_requests(*st, n as int, sb_origin_x as int, sb_origin_y as int),
        decreases 4 - n,
    {
        let mut more: Vec<TfPredictionRequest> = tf_32x32_inter_prediction_requests(
            &ctx,
            &st.split_16x16,
            &st.mv_8x8_x,
            &st.mv_8x8_y,
            n,
            sb_origin_x,
            sb_origin_y,
        );
        out.append(&mut more);
        n = n + 1;
    }
    out
}

} // verus!
