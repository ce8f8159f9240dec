//! The temporal filter of a picture with the kernels that its blocks are
//! searched and predicted with.

use vstd::prelude::*;

use crate::temporal_filtering::blocks::RepadPlan;
use crate::temporal_filtering::strength::init_tf_chroma;
use crate::temporal_filtering::subpel::TfSearchCtrls;
use crate::tf_driver::accumulate::{TfFilter, TfPrediction};
use crate::tf_driver::block::{
    block_predicted, kernels_fit, tf_predict_block, TfBlockKernels, TfBlockSettings, TfQuarterRequest, TfScoreRequest,
};
use crate::tf_driver::frame::{block_grid, frame_is, state_before, walk_of};
use crate::tf_driver::ladder::{is_fresh, TfLadderCtrls, TfMotion, TfSearchState};
use crate::tf_driver::picture::{
    answered, block_answered, filters_chroma, hme_levels, is_filter, is_filtered, is_repad, is_report, kept_slots,
    picture_filtered, picture_fits, planes_of, predictions_of, predicts, ra_mctf_filter, repad_plan, sums_hold,
    window_fits, Predictions, RaMctfOut, TfSettings, TfWindow,
};
use crate::tf_driver::planes::TfPicBufs;
use crate::tf_driver::predict::TfPlanePrediction;
use crate::tf_driver::setup::{strength_fits, RaTfScs, TfCentre};

verus! {

/// How the blocks of a picture are searched.
#[derive(Debug, Clone, Copy)]
pub struct TfSearchSettings {
    pub ladder: TfLadderCtrls,
    pub subpel: TfSearchCtrls,
    pub two_tap_filters: u32,
    pub regular_filters: u32,
    pub subpel_early_exit_th: u8,
}

/// How the blocks of a picture are searched and predicted.
pub open spec fn block_settings(s: TfSearchSettings, scs: RaTfScs, tf_chroma: bool) -> TfBlockSettings {
    TfBlockSettings {
        ladder: s.ladder,
        subpel: s.subpel,
        two_tap_filters: s.two_tap_filters,
        regular_filters: s.regular_filters,
        subpel_early_exit_th: s.subpel_early_exit_th,
        tf_chroma,
        sb_size: scs.sb_size as u32,
        mi_cols: (scs.true_width / 4) as i32,
        mi_rows: (scs.true_height / 4) as i32,
    }
}

/// The predictions of the blocks of a picture with the kernels.
pub open spec fn kernel_predictions<
    M: Fn(usize, u32, u32) -> TfMotion,
    S: Fn(TfScoreRequest) -> u64,
    P: Fn(usize, TfPlanePrediction) -> Vec<u8>,
    Q: Fn(TfQuarterRequest) -> u64,
>(k: TfBlockKernels<M, S, P, Q>, s: TfBlockSettings) -> Predictions {
    Predictions {
        may: |slot: usize, col: usize, row: usize, before: TfSearchState, v: TfPrediction|
            exists|motion: TfMotion| #[trigger]
                block_predicted(k, s, slot, (64 * col) as u32, (64 * row) as u32, before, motion, v),
    }
}

/// The kernels can be asked about a block and a slot.
pub open spec fn kernels_reach<
    M: Fn(usize, u32, u32) -> TfMotion,
    S: Fn(TfScoreRequest) -> u64,
    P: Fn(usize, TfPlanePrediction) -> Vec<u8>,
    Q: Fn(TfQuarterRequest) -> u64,
>(k: TfBlockKernels<M, S, P, Q>, slot: usize, col: int, row: int) -> bool {
    kernels_fit(k, slot, (64 * col) as u32, (64 * row) as u32)
}

proof fn lemma_answered(
    a: Predictions,
    b: Predictions,
    kept: Seq<usize>,
    done: Map<(int, int), Seq<TfPrediction>>,
    scs: RaTfScs,
    first: TfSearchState,
)
    requires
        answered(a, kept, done, scs, first),
        forall|s: usize, c: usize, r: usize, st: TfSearchState, v: TfPrediction| #[trigger]
            (a.may)(s, c, r, st, v) ==> (b.may)(s, c, r, st, v),
    ensures
        answered(b, kept, done, scs, first),
{
    let walk = walk_of(scs);
    assert forall|n: int| 0 <= n < walk.len() implies #[trigger] block_answered(
        b,
        kept,
        walk[n],
        state_before(done, walk, first, n),
        done[walk[n]],
    ) by {
        assert(block_answered(a, kept, walk[n], state_before(done, walk, first, n), done[walk[n]]));
    }
}

/// Searches and predicts the block at a column and a row.
fn predict_at<
    M: Fn(usize, u32, u32) -> TfMotion,
    S: Fn(TfScoreRequest) -> u64,
    P: Fn(usize, TfPlanePrediction) -> Vec<u8>,
    Q: Fn(TfQuarterRequest) -> u64,
>(
    kernels: &TfBlockKernels<M, S, P, Q>,
    s: &TfBlockSettings,
    slot: usize,
    col: usize,
    row: usize,
    state: TfSearchState,
    kept: Ghost<Seq<usize>>,
    Ghost(cols): Ghost<int>,
    Ghost(rows): Ghost<int>,
) -> (v: TfPrediction)
    requires
        s.fits(),
        cols <= 1020,
        rows <= 1020,
        forall|s: usize, c: int, r: int|
            kept@.contains(s) && 0 <= c < cols && 0 <= r < rows ==> #[trigger] kernels_reach(*kernels, s, c, r),
        kept@.contains(slot),
        col < cols,
        row < rows,
    ensures
        (kernel_predictions(*kernels, *s).may)(slot, col, row, state, v),
{
    assert(kernels_reach(*kernels, slot, col as int, row as int));
    tf_predict_block(kernels, s, slot, 64 * col as u32, 64 * row as u32, state)
}

/// Filters a picture as [`ra_mctf_filter`] does, with every block searched and
/// predicted by the kernels.
pub fn tf_filter_picture<
    M: Fn(usize, u32, u32) -> TfMotion,
    S: Fn(TfScoreRequest) -> u64,
    P: Fn(usize, TfPlanePrediction) -> Vec<u8>,
    Q: Fn(TfQuarterRequest) -> u64,
    W: Fn(RepadPlan, (u8, u8, u8, u8), TfPicBufs) -> TfPicBufs,
    T: Fn() -> (u32, u32),
    D: Fn(u32, u32) -> i8,
>(
    scs: &RaTfScs,
    centre_slot: usize,
    centre: &TfCentre,
    settings: &TfSettings,
    search: &TfSearchSettings,
    window: &TfWindow,
    q: i32,
    frames: &mut Vec<TfPicBufs>,
    kernels: &TfBlockKernels<M, S, P, Q>,
    repad: &W,
    totals: &T,
    direction: &D,
) -> (r: RaMctfOut)
    requires
        centre_slot < old(frames)@.len(),
        picture_fits(*scs, old(frames)@[centre_slot as int]),
        window_fits(*window),
        strength_fits(*scs, *centre, centre.is_key_frame, filters_chroma(*settings, *centre), q as int),
        is_repad(*repad, scs.true_width as int, scs.true_height as int),
        kept_slots(*settings, *window).len() > 0 ==> call_requires(*totals, ()),
        forall|h: u32, v: u32| #[trigger] call_requires(*direction, (h, v)),
        forall|s: usize, c: int, r: int|
            kept_slots(*settings, *window).contains(s) && 0 <= c < block_grid(*scs).0 && 0 <= r < block_grid(*scs).1
                ==> #[trigger] kernels_reach(*kernels, s, c, r),
        forall|f: TfFilter, src: [Vec<u8>; 3]|
            is_filter(f, *scs, *settings, *centre, q as int, old(frames)@[centre_slot as int]) && planes_of(
                old(frames)@[centre_slot as int],
                src,
            ) ==> #[trigger] sums_hold(
                kernel_predictions(
                    *kernels,
                    block_settings(*search, *scs, filters_chroma(*settings, *centre)),
                ),
                f,
                src,
                kept_slots(*settings, *window),
                block_grid(*scs).0,
                block_grid(*scs).1,
            ),
    ensures
        final(frames)@.len() == old(frames)@.len(),
        forall|i: int|
            0 <= i < old(frames)@.len() && i != centre_slot ==> #[trigger] final(frames)@[i] == old(frames)@[i],
        picture_filtered(
            *scs,
            *centre,
            *settings,
            kept_slots(*settings, *window),
            q as int,
            kernel_predictions(*kernels, block_settings(*search, *scs, filters_chroma(*settings, *centre))),
            *repad,
            old(frames)@[centre_slot as int],
            final(frames)@[centre_slot as int],
        ),
        is_report(
            *scs,
            *centre,
            kept_slots(*settings, *window),
            final(frames)@[centre_slot as int],
            *totals,
            *direction,
            r,
        ),
{
    let ghost before = frames@[centre_slot as int];
    let ghost kept = kept_slots(*settings, *window);
    let ghost (cols, rows) = block_grid(*scs);
    let tf_chroma: bool = init_tf_chroma(settings.chroma_lvl, &centre.noise_levels_log1p_fp16);
    let blocks: TfBlockSettings = TfBlockSettings {
        ladder: search.ladder,
        subpel: search.subpel,
        two_tap_filters: search.two_tap_filters,
        regular_filters: search.regular_filters,
        subpel_early_exit_th: search.subpel_early_exit_th,
        tf_chroma,
        sb_size: scs.sb_size as u32,
        mi_cols: (scs.true_width / 4) as i32,
        mi_rows: (scs.true_height / 4) as i32,
    };
    assert(blocks == block_settings(*search, *scs, filters_chroma(*settings, *centre)));
    let ghost wanted = kernel_predictions(*kernels, blocks);
    let slots: Ghost<Seq<usize>> = Ghost(kept);
    let goal: Ghost<Predictions> = Ghost(wanted);
    let predict = |slot: usize, col: usize, row: usize, state: TfSearchState| -> (v: TfPrediction)
        requires
            slots@.contains(slot),
            col < cols,
            row < rows,
        ensures
            (goal@.may)(slot, col, row, state, v),
        {
            predict_at(kernels, &blocks, slot, col, row, state, slots, Ghost(cols), Ghost(rows))
        };
    proof {
        assert forall|f: TfFilter, src: [Vec<u8>; 3]|
            is_filter(f, *scs, *settings, *centre, q as int, before) && planes_of(before, src) implies #[trigger] predicts(
            predict,
            f,
            src,
            kept,
            cols,
            rows,
        ) by {
            assert(sums_hold(wanted, f, src, kept, cols, rows));
            assert forall|s: usize, c: usize, w: usize, st: TfSearchState, v: TfPrediction| #[trigger]
                (predictions_of(predict).may)(s, c, w, st, v) implies (wanted.may)(s, c, w, st, v) by {
                assert(call_ensures(predict, (s, c, w, st), v));
            }
        }
    }
    let r: RaMctfOut = ra_mctf_filter(
        scs,
        centre_slot,
        centre,
        settings,
        window,
        q,
        frames,
        &predict,
        repad,
        totals,
        direction,
    );
    proof {
        let after = frames@[centre_slot as int];
        let found = predictions_of(predict);
        let (f, src, out, done, first, mid) = choose|
            f: TfFilter,
            src: [Vec<u8>; 3],
            out: [Vec<u8>; 3],
            done: Map<(int, int), Seq<TfPrediction>>,
            first: TfSearchState,
            mid: TfPicBufs,
        |
            {
                &&& is_filter(f, *scs, *settings, *centre, q as int, before)
                &&& planes_of(before, src)
                &&& #[trigger] frame_is(f, src, done, out)
                &&& #[trigger] is_fresh(first)
                &&& answered(found, kept, done, *scs, first)
                &&& #[trigger] is_filtered(*scs, *centre, before, mid, out)
                &&& call_ensures(
                    *repad,
                    (repad_plan(*scs, *settings, before), hme_levels(settings.hme_me_level), mid),
                    after,
                )
            };
        assert forall|s: usize, c: usize, w: usize, st: TfSearchState, v: TfPrediction| #[trigger]
            (found.may)(s, c, w, st, v) implies (wanted.may)(s, c, w, st, v) by {
            assert(call_ensures(predict, (s, c, w, st), v));
        }
        lemma_answered(found, wanted, kept, done, *scs, first);
        assert(frame_is(f, src, done, out) && is_fresh(first) && is_filtered(*scs, *centre, before, mid, out));
    }
    r
}

} // verus!
