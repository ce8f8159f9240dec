//! The temporal filter of a picture of a window: its planes are filtered in
//! place, and what filtering has changed is reported.

use vstd::arithmetic::mul::{lemma_mul_inequality, lemma_mul_is_distributive_add_other_way, lemma_mul_nonnegative};
use vstd::prelude::*;

use crate::arith::{clamp_int, lemma_raster_split, lemma_total_bounds, max_int, min_int, total};
use crate::raster::pos;
use crate::temporal_filtering::blocks::{pad_and_decimate_filtered_pic, RepadPlan};
use crate::temporal_filtering::strength::{
    choose_src_save, chroma_noisy, init_tf_chroma, init_tf_mv_dist_th, target_fits, target_q, SrcSaveChoice,
};
use crate::temporal_filtering::subpel::{are_distances, block_pair, blocks, filt_unfilt_dist, lemma_blocks, terms_of};
use crate::tf_driver::accumulate::{holds_block, pred_fits, TfFilter, TfPrediction};
use crate::tf_driver::frame::{
    asked, block_grid, covers_grid, filter_planes, frame_is, is_predict, left_by, plane_is, segments_fit,
    state_before, state_fits, unpredicted_blocks_are_kept, visited, walk_of,
};
use crate::tf_driver::ladder::{is_fresh, TfSearchState};
use crate::tf_driver::planes::{is_extract, PaPlane, TfPicBufs};
use crate::tf_driver::setup::{
    decay_factor, offset_slot, reference_slots, regions_fit, strength_fits, stepped, taking_part, tf_decay_factors,
    tf_enable_hme_flags, tf_frame_update_type, tf_kept_slots, tf_reference_slots, tf_target_q, RaTfScs, TfCentre,
    TfMember, TfWindowStats,
};
use crate::types::FrameUpdateType;

verus! {

/// Sum of the squared differences of two blocks.
pub open spec fn squared_gap_at(
    a: Seq<u8>,
    ao: int,
    a_stride: int,
    b: Seq<u8>,
    bo: int,
    b_stride: int,
    w: int,
) -> spec_fn(int) -> int {
    |i: int|
        {
            let d = a[pos(ao, a_stride, w, i)] - b[pos(bo, b_stride, w, i)];
            d * d
        }
}

/// Sum of the squared differences of two blocks.
pub fn spatial_full_distortion(
    a: &[u8],
    ao: usize,
    a_stride: usize,
    b: &[u8],
    bo: usize,
    b_stride: usize,
    w: u32,
    h: u32,
) -> (r: u64)
    requires
        0 < w <= 0xffff,
        0 < h <= 0xffff,
        ao + (h - 1) * a_stride + w <= a@.len(),
        bo + (h - 1) * b_stride + w <= b@.len(),
    ensures
        r == total(
            squared_gap_at(a@, ao as int, a_stride as int, b@, bo as int, b_stride as int, w as int),
            w * h,
        ),
{
    let ghost f = squared_gap_at(a@, ao as int, a_stride as int, b@, bo as int, b_stride as int, w as int);
    assert(0 < w * h <= 0xfffe_0001) by (nonlinear_arith)
        requires
            0 < w <= 0xffff,
            0 < h <= 0xffff,
    ;
    let (alen, blen): (usize, usize) = (a.len(), b.len());
    let n: usize = w as usize * h as usize;
    let mut sum: u64 = 0;
    let mut i: usize = 0;
    while i < n
        invariant
            i <= n <= 0xfffe_0001,
            n == w * h,
            0 < w <= 0xffff,
            0 < h <= 0xffff,
            alen == a@.len(),
            blen == b@.len(),
            ao + (h - 1) * a_stride + w <= alen,
            bo + (h - 1) * b_stride + w <= blen,
            f == squared_gap_at(a@, ao as int, a_stride as int, b@, bo as int, b_stride as int, w as int),
            sum == total(f, i as int),
            sum <= 65025 * i,
        decreases n - i,
    {
        let row: usize = i / w as usize;
        let col: usize = i % w as usize;
        proof {
            lemma_raster_split(i as int, w as int, h as int);
            lemma_mul_inequality(row as int, h - 1, a_stride as int);
            lemma_mul_inequality(row as int, h - 1, b_stride as int);
            lemma_mul_nonnegative(row as int, a_stride as int);
            lemma_mul_nonnegative(row as int, b_stride as int);
        }
        let d: i32 = a[ao + row * a_stride + col] as i32 - b[bo + row * b_stride + col] as i32;
        assert(0 <= d * d <= 65025) by (nonlinear_arith)
            requires
                -255 <= d <= 255,
        ;
        assert(f(i as int) == d * d);
        sum = sum + (d * d) as u64;
        i = i + 1;
    }
    sum
}

/// Levels of the search of a filter.
#[derive(Debug, Clone, Copy, PartialEq, Eq, Structural)]
pub struct TfSettings {
    pub chroma_lvl: u8,
    pub hme_me_level: u8,
    pub ref_frame_factor: u8,
}

/// The pictures around the one that is filtered.
#[derive(Debug)]
pub struct TfWindow {
    pub past: usize,
    pub future: usize,
    pub members: Vec<TfMember>,
    pub stats: TfWindowStats,
}

/// What the filter of a picture reports.
#[derive(Debug, Clone, Copy, PartialEq, Eq)]
pub struct RaMctfOut {
    /// Blocks that moved mostly to the side, and up or down.
    pub tf_tot_horz_blks: u32,
    pub tf_tot_vert_blks: u32,
    /// How far filtering has changed an intra slice.
    pub filt_to_unfilt_diff: Option<u32>,
    pub motion_direction: i8,
}

/// Plane `p` of a picture.
pub open spec fn plane_no(b: TfPicBufs, p: int) -> PaPlane {
    if p == 0 {
        b.pa.full
    } else if p == 1 {
        b.u
    } else {
        b.v
    }
}

/// The buffer of a plane from its first sample on.
pub open spec fn tail_of(p: PaPlane) -> Seq<u8> {
    p.buf@.subrange(p.org as int, p.buf@.len() as int)
}

/// `src` holds the planes of a picture, each from its first sample on.
pub open spec fn planes_of(b: TfPicBufs, src: [Vec<u8>; 3]) -> bool {
    forall|p: int| 0 <= p < 3 ==> (#[trigger] src[p])@ == tail_of(plane_no(b, p))
}

/// Chroma is filtered.
pub open spec fn filters_chroma(settings: TfSettings, centre: TfCentre) -> bool {
    settings.chroma_lvl == 1 || (settings.chroma_lvl == 2 && chroma_noisy(centre.noise_levels_log1p_fp16@))
}

/// What the filter of a picture is set to.
pub open spec fn is_filter(
    f: TfFilter,
    scs: RaTfScs,
    settings: TfSettings,
    centre: TfCentre,
    q: int,
    b: TfPicBufs,
) -> bool {
    &&& f.tf_chroma == filters_chroma(settings, centre)
    &&& f.tf_mv_dist_th == clamp_int(min_int(scs.aligned_height as int, scs.aligned_width as int) - 150, 64, 450)
    &&& forall|p: int|
        0 <= p < 3 ==> #[trigger] f.decay[p] == decay_factor(scs, centre, centre.is_key_frame, f.tf_chroma, q, p)
    &&& forall|p: int| 0 <= p < 3 ==> #[trigger] f.stride[p] == plane_no(b, p).stride
}

/// The slots of the window that take part.
pub open spec fn kept_slots(settings: TfSettings, w: TfWindow) -> Seq<usize> {
    let slots = reference_slots(
        w.past as int,
        w.future as int,
        if settings.ref_frame_factor < 1 {
            1
        } else {
            settings.ref_frame_factor as int
        },
    );
    taking_part(slots, w.members@, w.stats, slots.len() as int)
}

/// The predictions of a block that may come from a slot: of the slot, the
/// column and the row of the block, and the state that its search starts from.
pub struct Predictions {
    pub may: spec_fn(usize, usize, usize, TfSearchState, TfPrediction) -> bool,
}

/// The predictions that `predict` returns.
pub open spec fn predictions_of<P: Fn(usize, usize, usize, TfSearchState) -> TfPrediction>(predict: P) -> Predictions {
    Predictions {
        may: |slot: usize, col: usize, row: usize, before: TfSearchState, v: TfPrediction|
            call_ensures(predict, (slot, col, row, before), v),
    }
}

/// Every block has been predicted from each slot that takes part: the blocks
/// in the order in which the frame is filtered, and the search of each from
/// the state that the one before it left.
pub open spec fn answered(
    predict: Predictions,
    kept: Seq<usize>,
    done: Map<(int, int), Seq<TfPrediction>>,
    scs: RaTfScs,
    first: TfSearchState,
) -> bool {
    &&& covers_grid(done, scs)
    &&& forall|b: (int, int)| #[trigger] done.contains_key(b) <==> walk_of(scs).contains(b)
    &&& walk_of(scs).no_duplicates()
    &&& forall|n: int|
        0 <= n < walk_of(scs).len() ==> #[trigger] block_answered(
            predict,
            kept,
            walk_of(scs)[n],
            state_before(done, walk_of(scs), first, n),
            done[walk_of(scs)[n]],
        )
}

/// A block has been predicted from each slot that takes part, in order.
pub open spec fn block_answered(
    predict: Predictions,
    kept: Seq<usize>,
    b: (int, int),
    before: TfSearchState,
    preds: Seq<TfPrediction>,
) -> bool {
    &&& preds.len() == kept.len()
    &&& forall|i: int|
        0 <= i < preds.len() ==> (predict.may)(
            kept[i],
            b.0 as usize,
            b.1 as usize,
            left_by(preds.take(i), before),
            #[trigger] preds[i],
        )
}

/// The unfiltered luma is kept: for an intra slice, and wherever quality is
/// measured.
pub open spec fn saves(scs: RaTfScs, centre: TfCentre) -> bool {
    scs.compute_psnr || scs.compute_ssim || centre.is_islice
}

/// A plane with its samples, and all behind them, replaced.
pub open spec fn refilled(before: PaPlane, after: PaPlane, samples: Seq<u8>) -> bool {
    &&& same_place(before, after)
    &&& after.buf@ == before.buf@.take(before.org as int) + samples
}

/// Two planes lie in their buffers alike.
pub open spec fn same_place(a: PaPlane, b: PaPlane) -> bool {
    &&& a.org == b.org
    &&& a.stride == b.stride
    &&& a.width == b.width
    &&& a.height == b.height
    &&& a.buf@.len() == b.buf@.len()
}

/// A picture with its planes filtered, before it is padded again.
pub open spec fn is_filtered(
    scs: RaTfScs,
    centre: TfCentre,
    before: TfPicBufs,
    after: TfPicBufs,
    out: [Vec<u8>; 3],
) -> bool {
    &&& after.do_tf
    &&& if saves(scs, centre) {
        after.saved_y is Some && is_extract((after.saved_y->0)@, before.pa.full)
    } else {
        after.saved_y == before.saved_y
    }
    &&& forall|p: int|
        0 <= p < 3 ==> refilled(plane_no(before, p), plane_no(after, p), (#[trigger] out[p])@)
    &&& after.pa.quarter == before.pa.quarter
    &&& after.pa.sixteenth == before.pa.sixteenth
    &&& after.pa.picture_number == before.pa.picture_number
}

/// Width and height of plane `p` of a picture of a size.
pub open spec fn plane_size(w: int, h: int, p: int) -> (int, int) {
    if p == 0 {
        (w, h)
    } else {
        (w / 2, h / 2)
    }
}

/// Place of a sample of a plane.
pub open spec fn cell(p: PaPlane, r: int, c: int) -> int {
    p.org + r * p.stride + c
}

/// Padding a plane again keeps its first `w` columns of its first `h` rows.
pub open spec fn plane_repadded(before: PaPlane, after: PaPlane, w: int, h: int) -> bool {
    &&& same_place(before, after)
    &&& forall|r: int, c: int|
        0 <= r < min_int(h, before.height as int) && 0 <= c < min_int(w, before.width as int)
            ==> after.buf@[#[trigger] cell(after, r, c)] == before.buf@[cell(before, r, c)]
}

/// Padding a picture again keeps what lies in its true size.
pub open spec fn repadded(before: TfPicBufs, after: TfPicBufs, true_w: int, true_h: int) -> bool {
    &&& after.do_tf == before.do_tf
    &&& after.saved_y == before.saved_y
    &&& after.pa.picture_number == before.pa.picture_number
    &&& forall|p: int|
        0 <= p < 3 ==> plane_repadded(
            #[trigger] plane_no(before, p),
            plane_no(after, p),
            plane_size(true_w, true_h, p).0,
            plane_size(true_w, true_h, p).1,
        )
}

/// `repad` pads pictures again and makes their smaller versions anew.
pub open spec fn is_repad<W: Fn(RepadPlan, (u8, u8, u8, u8), TfPicBufs) -> TfPicBufs>(
    repad: W,
    true_w: int,
    true_h: int,
) -> bool {
    &&& forall|plan: RepadPlan, hme: (u8, u8, u8, u8), b: TfPicBufs| #[trigger] call_requires(repad, (plan, hme, b))
    &&& forall|plan: RepadPlan, hme: (u8, u8, u8, u8), b: TfPicBufs, r: TfPicBufs| #[trigger]
        call_ensures(repad, (plan, hme, b), r) ==> repadded(b, r, true_w, true_h)
}

/// What is padded again.
pub open spec fn repad_plan(scs: RaTfScs, settings: TfSettings, b: TfPicBufs) -> RepadPlan {
    RepadPlan {
        complete_blocks: scs.true_width as int % 8 != 0 || scs.true_height as int % 8 != 0,
        chroma: settings.chroma_lvl != 0,
        chroma_width: (scs.aligned_width as int / 2) as usize,
        chroma_height: (scs.aligned_height as int / 2) as usize,
        chroma_border_x: ((b.pa.full.stride - b.pa.full.width) / 2 / 2) as usize,
        chroma_border_y: ((b.pa.full.stride - b.pa.full.width) / 2 / 2) as usize,
    }
}

/// Levels of the motion search that a picture is made smaller for.
pub open spec fn hme_levels(hme_me_level: u8) -> (u8, u8, u8, u8) {
    (
        1,
        1,
        if hme_me_level <= 2 {
            1
        } else {
            0
        },
        if hme_me_level == 0 {
            1
        } else {
            0
        },
    )
}

/// Squared differences of the blocks of luma and its unfiltered copy.
pub open spec fn change_at(scs: RaTfScs, luma: PaPlane, saved: Seq<u8>) -> spec_fn(int) -> int {
    |k: int|
        {
            let pair = block_pair(
                scs.aligned_width as int,
                scs.aligned_height as int,
                scs.sb_size as int,
                luma.stride,
                scs.aligned_width as usize,
                k,
            );
            total(
                squared_gap_at(
                    tail_of(luma),
                    pair.0 as int,
                    pair.1 as int,
                    saved,
                    pair.2 as int,
                    pair.3 as int,
                    pair.4 as int,
                ),
                pair.4 * pair.5,
            )
        }
}

/// Number of blocks that a change is averaged over.
pub open spec fn change_blocks(scs: RaTfScs) -> int {
    blocks(scs.aligned_width as int, scs.sb_size as int) * blocks(scs.aligned_height as int, scs.sb_size as int)
}

/// What the filter of a picture reports: the change of an intra slice against
/// its unfiltered luma, and motion where another picture took part.
pub open spec fn is_report<T: Fn() -> (u32, u32), D: Fn(u32, u32) -> i8>(
    scs: RaTfScs,
    centre: TfCentre,
    kept: Seq<usize>,
    b: TfPicBufs,
    totals: T,
    direction: D,
    r: RaMctfOut,
) -> bool {
    &&& if kept.len() == 0 {
        r.tf_tot_horz_blks == 0 && r.tf_tot_vert_blks == 0
    } else {
        call_ensures(totals, (), (r.tf_tot_horz_blks, r.tf_tot_vert_blks))
    }
    &&& call_ensures(direction, (r.tf_tot_horz_blks, r.tf_tot_vert_blks), r.motion_direction)
    &&& if centre.is_islice {
        r.filt_to_unfilt_diff is Some && r.filt_to_unfilt_diff->0 == (total(
            change_at(scs, b.pa.full, (b.saved_y->0)@),
            change_blocks(scs),
        ) % 0x1_0000_0000) / change_blocks(scs)
    } else {
        r.filt_to_unfilt_diff is None
    }
}

/// A picture goes through the filter.
pub open spec fn picture_filtered<W: Fn(RepadPlan, (u8, u8, u8, u8), TfPicBufs) -> TfPicBufs>(
    scs: RaTfScs,
    centre: TfCentre,
    settings: TfSettings,
    kept: Seq<usize>,
    q: int,
    predict: Predictions,
    repad: W,
    before: TfPicBufs,
    after: TfPicBufs,
) -> bool {
    exists|
        f: TfFilter,
        src: [Vec<u8>; 3],
        out: [Vec<u8>; 3],
        done: Map<(int, int), Seq<TfPrediction>>,
        first: TfSearchState,
        mid: TfPicBufs,
    |
        {
            &&& is_filter(f, scs, settings, centre, q, before)
            &&& planes_of(before, src)
            &&& #[trigger] frame_is(f, src, done, out)
            &&& #[trigger] is_fresh(first)
            &&& answered(predict, kept, done, scs, first)
            &&& #[trigger] is_filtered(scs, centre, before, mid, out)
            &&& call_ensures(
                repad,
                (repad_plan(scs, settings, before), hme_levels(settings.hme_me_level), mid),
                after,
            )
        }
}

/// A picture that can be filtered.
pub open spec fn picture_fits(scs: RaTfScs, b: TfPicBufs) -> bool {
    &&& scs.bit_depth == 8
    &&& 0 < scs.aligned_width <= 0xff00
    &&& 0 < scs.aligned_height <= 0xff00
    &&& scs.true_width <= scs.aligned_width
    &&& scs.true_height <= scs.aligned_height
    &&& segments_fit(scs)
    &&& 64 <= scs.sb_size <= 0xffff
    &&& b.wf()
    &&& b.pa.full.width == scs.aligned_width
    &&& b.pa.full.height == scs.aligned_height
    &&& b.pa.full.width <= b.pa.full.stride
    &&& scs.aligned_height * b.pa.full.stride + scs.aligned_width <= usize::MAX
    &&& scs.aligned_height * scs.aligned_width + scs.aligned_width <= usize::MAX
    &&& forall|p: int| 0 <= p < 3 ==> (#[trigger] plane_no(b, p)).org <= plane_no(b, p).buf@.len()
}

/// The window holds what is read of it.
pub open spec fn window_fits(w: TfWindow) -> bool {
    &&& w.past + w.future <= 64
    &&& w.members@.len() == w.past + w.future + 1
    &&& w.stats.aligned_width * w.stats.aligned_height <= u32::MAX
    &&& 14 * w.stats.regions <= usize::MAX
    &&& regions_fit(w.stats.centre_regions, w.stats.regions as int)
    &&& forall|i: int|
        0 <= i < w.members@.len() ==> regions_fit((#[trigger] w.members@[i]).regions, w.stats.regions as int)
}

/// `predict` can be asked for every block and every slot that takes part, and
/// what it returns can be added to the sums.
pub open spec fn predicts<P: Fn(usize, usize, usize, TfSearchState) -> TfPrediction>(
    predict: P,
    f: TfFilter,
    src: [Vec<u8>; 3],
    kept: Seq<usize>,
    cols: int,
    rows: int,
) -> bool {
    &&& can_be_asked(predict, kept, cols, rows)
    &&& sums_hold(predictions_of(predict), f, src, kept, cols, rows)
}

/// Every block, and every prediction that there may be of it, can be added to
/// the sums.
pub open spec fn sums_hold(
    predict: Predictions,
    f: TfFilter,
    src: [Vec<u8>; 3],
    kept: Seq<usize>,
    cols: int,
    rows: int,
) -> bool {
    &&& forall|s: usize, c: usize, r: usize, st: TfSearchState, v: TfPrediction| #[trigger]
        (predict.may)(s, c, r, st, v) && kept.contains(s) && c < cols && r < rows && state_fits(st) ==> pred_fits(
            f,
            src,
            v,
            c as int,
            r as int,
        )
    &&& forall|c: int, r: int| 0 <= c < cols && 0 <= r < rows ==> #[trigger] holds_block(f, src, c, r)
}

/// `predict` can be asked for every block and every slot that takes part.
pub open spec fn can_be_asked<P: Fn(usize, usize, usize, TfSearchState) -> TfPrediction>(
    predict: P,
    kept: Seq<usize>,
    cols: int,
    rows: int,
) -> bool {
    forall|s: usize, c: usize, r: usize, st: TfSearchState|
        kept.contains(s) && c < cols && r < rows && state_fits(st) ==> #[trigger] call_requires(
            predict,
            (s, c, r, st),
        )
}

/// The buffer of a plane from its first sample on.
fn take_tail(p: &PaPlane) -> (r: Vec<u8>)
    requires
        p.org <= p.buf@.len(),
    ensures
        r@ == tail_of(*p),
{
    let len: usize = p.buf.len();
    vstd::slice::slice_to_vec(vstd::slice::slice_subrange(p.buf.as_slice(), p.org, len))
}

/// Replaces the samples of a plane, and all behind them.
fn put_tail(p: &mut PaPlane, samples: &Vec<u8>)
    requires
        old(p).org + samples@.len() == old(p).buf@.len(),
    ensures
        refilled(*old(p), *final(p), samples@),
{
    let ghost p0 = *p;
    let len: usize = p.buf.len();
    let mut i: usize = 0;
    while i < samples.len()
        invariant
            i <= samples@.len(),
            p0.org + samples@.len() == len,
            len == p0.buf@.len(),
            same_place(p0, *p),
            forall|k: int| 0 <= k < p0.org ==> #[trigger] p.buf@[k] == p0.buf@[k],
            forall|k: int| p0.org <= k < p0.org + i ==> #[trigger] p.buf@[k] == samples@[k - p0.org],
        decreases samples@.len() - i,
    {
        let at: usize = p.org + i;
        p.buf[at] = samples[i];
        i = i + 1;
    }
    assert(p.buf@ =~= p0.buf@.take(p0.org as int) + samples@);
}

/// Predicts a block from each slot that takes part. A search starts from the
/// state that the one before it left.
fn predictions<P: Fn(usize, usize, usize, TfSearchState) -> TfPrediction>(
    kept: &Vec<usize>,
    predict: &P,
    col: usize,
    row: usize,
    state: TfSearchState,
    Ghost(f): Ghost<TfFilter>,
    Ghost(src): Ghost<[Vec<u8>; 3]>,
    Ghost(cols): Ghost<int>,
    Ghost(rows): Ghost<int>,
) -> (r: Vec<TfPrediction>)
    requires
        predicts(*predict, f, src, kept@, cols, rows),
        col < cols,
        row < rows,
        state_fits(state),
    ensures
        block_answered(predictions_of(*predict), kept@, (col as int, row as int), state, r@),
        forall|i: int| 0 <= i < r@.len() ==> #[trigger] pred_fits(f, src, r@[i], col as int, row as int),
{
    let mut out: Vec<TfPrediction> = Vec::new();
    let mut st: TfSearchState = state;
    let mut i: usize = 0;
    while i < kept.len()
        invariant
            i <= kept@.len(),
            predicts(*predict, f, src, kept@, cols, rows),
            col < cols,
            row < rows,
            out@.len() == i,
            state_fits(st),
            st == left_by(out@, state),
            forall|k: int|
                0 <= k < i ==> call_ensures(
                    *predict,
                    (kept@[k], col, row, left_by(out@.take(k), state)),
                    #[trigger] out@[k],
                ),
            forall|k: int| 0 <= k < i ==> #[trigger] pred_fits(f, src, out@[k], col as int, row as int),
        decreases kept@.len() - i,
    {
        let ghost before = out@;
        assert(kept@.contains(kept@[i as int]));
        let v: TfPrediction = predict(kept[i], col, row, st);
        st = v.state;
        out.push(v);
        proof {
            assert((predictions_of(*predict).may)(kept@[i as int], col, row, left_by(before, state), v));
            assert(pred_fits(f, src, v, col as int, row as int));
            assert(out@.take(i as int) =~= before);
            assert forall|k: int| 0 <= k < i implies out@.take(k) == #[trigger] before.take(k) && out@[k] == before[k] by {
                assert(out@.take(k) =~= before.take(k));
            }
            assert forall|k: int| 0 <= k < i + 1 implies call_ensures(
                *predict,
                (kept@[k], col, row, left_by(out@.take(k), state)),
                #[trigger] out@[k],
            ) by {
                if k < i {
                    assert(out@.take(k) == before.take(k));
                }
            }
        }
        i = i + 1;
    }
    assert((col as int) as usize == col && (row as int) as usize == row);
    out
}

proof fn lemma_pair_inside(scs: RaTfScs, stride: usize, k: int)
    requires
        0 < scs.aligned_width <= 0xff00,
        0 < scs.aligned_height <= 0xff00,
        64 <= scs.sb_size <= 0xffff,
        scs.aligned_width <= stride,
        scs.aligned_height * stride + scs.aligned_width <= usize::MAX,
        scs.aligned_height * scs.aligned_width + scs.aligned_width <= usize::MAX,
        0 <= k < change_blocks(scs),
    ensures
        ({
            let w = scs.aligned_width as int;
            let h = scs.aligned_height as int;
            let pair = block_pair(w, h, scs.sb_size as int, stride, w as usize, k);
            &&& 0 < pair.4 <= 0xffff
            &&& 0 < pair.5 <= 0xffff
            &&& pair.1 == stride
            &&& pair.3 == w
            &&& pair.0 + (pair.5 - 1) * stride + pair.4 <= (h - 1) * stride + w
            &&& pair.2 + (pair.5 - 1) * w + pair.4 <= w * h
            &&& exists|x: int, y: int| #[trigger] pair_at(w, h, stride as int, pair, x, y)
        }),
{
    let w = scs.aligned_width as int;
    let h = scs.aligned_height as int;
    let b = scs.sb_size as int;
    let cols = blocks(w, b);
    lemma_blocks(w, b);
    lemma_blocks(h, b);
    lemma_raster_split(k, cols, blocks(h, b));
    let x = 64 * (k % cols);
    let y = 64 * (k / cols);
    let pair = block_pair(w, h, b, stride, w as usize, k);
    lemma_mul_inequality(y, h, stride as int);
    lemma_mul_inequality(y, h, w);
    lemma_mul_nonnegative(y, stride as int);
    lemma_mul_nonnegative(y, w);
    let bh = pair.5 as int;
    lemma_mul_is_distributive_add_other_way(stride as int, y, bh - 1);
    lemma_mul_is_distributive_add_other_way(w, y, bh - 1);
    lemma_mul_inequality(y + bh - 1, h - 1, stride as int);
    lemma_mul_inequality(y + bh - 1, h - 1, w);
    lemma_mul_is_distributive_add_other_way(w, h - 1, 1);
    vstd::arithmetic::mul::lemma_mul_is_commutative(w, h);
    assert(pair_at(w, h, stride as int, pair, x, y));
}

/// The pair of blocks starts at a column and row of the frame, and ends inside
/// it.
pub open spec fn pair_at(
    w: int,
    h: int,
    stride: int,
    pair: (usize, usize, usize, usize, u32, u32),
    x: int,
    y: int,
) -> bool {
    &&& 0 <= x
    &&& 0 <= y
    &&& x + pair.4 <= w
    &&& y + pair.5 <= h
    &&& pair.0 == y * stride + x
    &&& pair.2 == y * w + x
}

proof fn lemma_same_terms(d: Seq<u64>, f: spec_fn(int) -> int, n: int)
    requires
        0 <= n <= d.len(),
        forall|k: int| 0 <= k < n ==> (#[trigger] d[k]) as int == f(k),
    ensures
        total(terms_of(d), n) == total(f, n),
    decreases n,
{
    if n > 0 {
        lemma_same_terms(d, f, n - 1);
        assert(d[n - 1] as int == f(n - 1));
    }
}

/// Mean change of the blocks of luma against its unfiltered copy.
fn change_of(scs: &RaTfScs, luma: &PaPlane, saved: &Vec<u8>) -> (r: u32)
    requires
        0 < scs.aligned_width <= 0xff00,
        0 < scs.aligned_height <= 0xff00,
        64 <= scs.sb_size <= 0xffff,
        luma.wf(),
        luma.org <= luma.buf@.len(),
        luma.width == scs.aligned_width,
        luma.height == scs.aligned_height,
        luma.width <= luma.stride,
        scs.aligned_height * luma.stride + scs.aligned_width <= usize::MAX,
        scs.aligned_height * scs.aligned_width + scs.aligned_width <= usize::MAX,
        saved@.len() == scs.aligned_width * scs.aligned_height,
    ensures
        r == (total(change_at(*scs, *luma, saved@), change_blocks(*scs)) % 0x1_0000_0000) / change_blocks(*scs),
{
    let len: usize = luma.buf.len();
    let tail: &[u8] = vstd::slice::slice_subrange(luma.buf.as_slice(), luma.org, len);
    let kept: &[u8] = saved.as_slice();
    let dist = |a: usize, a_stride: usize, b: usize, b_stride: usize, w: u32, h: u32| -> (d: u64)
        requires
            0 < w <= 0xffff,
            0 < h <= 0xffff,
            a + (h - 1) * a_stride + w <= tail@.len(),
            b + (h - 1) * b_stride + w <= kept@.len(),
        ensures
            d == total(
                squared_gap_at(tail@, a as int, a_stride as int, kept@, b as int, b_stride as int, w as int),
                w * h,
            ),
        { spatial_full_distortion(tail, a, a_stride, kept, b, b_stride, w, h) };
    let stride: usize = luma.stride;
    let width: usize = scs.aligned_width as usize;
    proof {
        assert forall|k: int| 0 <= k < change_blocks(*scs) implies call_requires(
            dist,
            #[trigger] block_pair(
                scs.aligned_width as int,
                scs.aligned_height as int,
                scs.sb_size as int,
                stride,
                width,
                k,
            ),
        ) by {
            lemma_pair_inside(*scs, stride, k);
        }
    }
    let r: u32 = filt_unfilt_dist(scs.aligned_width, scs.aligned_height, scs.sb_size as u32, stride, width, &dist);
    proof {
        let n = change_blocks(*scs);
        let ds = choose|d: Seq<u64>|
            {
                &&& d.len() == n
                &&& #[trigger] are_distances(
                    dist,
                    scs.aligned_width as int,
                    scs.aligned_height as int,
                    scs.sb_size as int,
                    stride,
                    width,
                    d,
                )
                &&& r == (total(terms_of(d), n) % 0x1_0000_0000) / n
            };
        let f = change_at(*scs, *luma, saved@);
        assert forall|k: int| 0 <= k < n implies (#[trigger] ds[k]) as int == f(k) by {
            lemma_pair_inside(*scs, stride, k);
        }
        lemma_same_terms(ds, f, n);
    }
    r
}

/// Quantizer index that the filter of a picture aims at: that of the sequence,
/// moved by the distance from its step to the target.
pub fn tf_target_qindex<Q: Fn(i32) -> i32, D: Fn(i32, i32) -> i32>(
    qindex: i32,
    centre: &TfCentre,
    step: &Q,
    qdelta: &D,
) -> (r: i32)
    requires
        call_requires(*step, (qindex,)),
        forall|s: i32| #[trigger]
            call_ensures(*step, (qindex,), s) ==> target_fits(
                s as int,
                offset_slot(*centre),
                centre.hierarchical_levels as int,
            ) && call_requires(
                *qdelta,
                (s, target_q(s as int, offset_slot(*centre), centre.hierarchical_levels as int) as i32),
            ),
        forall|s: i32, d: i32| #[trigger]
            target_move(*step, *qdelta, qindex, *centre, s, d) ==> i32::MIN <= qindex + d <= i32::MAX,
    ensures
        exists|s: i32, d: i32| #[trigger] target_move(*step, *qdelta, qindex, *centre, s, d) && r == qindex + d,
{
    let s: i32 = step(qindex);
    let target: i32 = tf_target_q(s, centre);
    let d: i32 = qdelta(s, target);
    assert(target_move(*step, *qdelta, qindex, *centre, s, d));
    qindex + d
}

/// The step of a quantizer index, and the distance to the one that is aimed
/// at.
pub open spec fn target_move<Q: Fn(i32) -> i32, D: Fn(i32, i32) -> i32>(
    step: Q,
    qdelta: D,
    qindex: i32,
    centre: TfCentre,
    s: i32,
    d: i32,
) -> bool {
    &&& call_ensures(step, (qindex,), s)
    &&& call_ensures(
        qdelta,
        (s, target_q(s as int, offset_slot(centre), centre.hierarchical_levels as int) as i32),
        d,
    )
}

/// Filters the planes of a picture.
fn filter_picture<P: Fn(usize, usize, usize, TfSearchState) -> TfPrediction>(
    scs: &RaTfScs,
    centre: &TfCentre,
    f: &TfFilter,
    kept: &Vec<usize>,
    b: &mut TfPicBufs,
    state: TfSearchState,
    predict: &P,
) -> (out: Ghost<([Vec<u8>; 3], [Vec<u8>; 3], Map<(int, int), Seq<TfPrediction>>)>)
    requires
        picture_fits(*scs, *old(b)),
        kept@.len() <= 64,
        forall|src: [Vec<u8>; 3]| #[trigger]
            planes_of(*old(b), src) ==> predicts(*predict, *f, src, kept@, block_grid(*scs).0, block_grid(*scs).1),
        state_fits(state),
    ensures
        planes_of(*old(b), out@.0),
        frame_is(*f, out@.0, out@.2, out@.1),
        answered(predictions_of(*predict), kept@, out@.2, *scs, state),
        is_filtered(*scs, *centre, *old(b), *final(b), out@.1),
{
    let ghost b0 = *b;
    let save: SrcSaveChoice = choose_src_save(
        scs.compute_psnr,
        scs.compute_ssim,
        false,
        false,
        match tf_frame_update_type(centre.is_key_frame, centre.hierarchical_levels, centre.temporal_layer_index) {
            FrameUpdateType::Kf | FrameUpdateType::Arf => true,
            _ => false,
        },
        centre.is_islice,
    );
    assert(plane_no(b0, 0).org <= plane_no(b0, 0).buf@.len());
    assert(plane_no(b0, 1).org <= plane_no(b0, 1).buf@.len());
    assert(plane_no(b0, 2).org <= plane_no(b0, 2).buf@.len());
    b.do_tf = true;
    match save {
        SrcSaveChoice::Nothing => {},
        _ => {
            b.saved_y = Some(b.extract_luma());
        },
    }
    let mut frame: [Vec<u8>; 3] = [take_tail(&b.pa.full), take_tail(&b.u), take_tail(&b.v)];
    let ghost src = frame;
    assert(planes_of(b0, src)) by {
        assert forall|p: int| 0 <= p < 3 implies (#[trigger] src[p])@ == tail_of(plane_no(b0, p)) by {
            assert(p == 0 || p == 1 || p == 2);
        }
    }
    let ghost cols = block_grid(*scs).0;
    let ghost rows = block_grid(*scs).1;
    assert(predicts(*predict, *f, src, kept@, cols, rows));
    let held: Ghost<[Vec<u8>; 3]> = Ghost(src);
    let ask = |col: usize, row: usize, st: TfSearchState| -> (v: Vec<TfPrediction>)
        requires
            col < cols,
            row < rows,
            state_fits(st),
        ensures
            block_answered(predictions_of(*predict), kept@, (col as int, row as int), st, v@),
            forall|i: int| 0 <= i < v@.len() ==> #[trigger] pred_fits(*f, held@, v@[i], col as int, row as int),
        { predictions(kept, predict, col, row, st, Ghost(*f), held, Ghost(cols), Ghost(rows)) };
    proof {
        assert(is_predict(ask, *f, src, cols, rows)) by {
            assert forall|c: usize, r: usize, st: TfSearchState, v: Vec<TfPrediction>| #[trigger]
                call_ensures(ask, (c, r, st), v) && c < cols && r < rows && state_fits(st) implies v@.len() <= 64
                && forall|i: int| 0 <= i < v@.len() ==> #[trigger] pred_fits(*f, src, v@[i], c as int, r as int) by {
                assert(block_answered(predictions_of(*predict), kept@, (c as int, r as int), st, v@));
            }
        }
    }
    filter_planes(scs, f, &mut frame, state, &ask);
    let ghost done = choose|done: Map<(int, int), Seq<TfPrediction>>|
        {
            &&& #[trigger] frame_is(*f, src, done, frame)
            &&& asked(ask, done, walk_of(*scs), state)
            &&& covers_grid(done, *scs)
        };
    proof {
        let walk = walk_of(*scs);
        assert forall|n: int| 0 <= n < walk.len() implies #[trigger] block_answered(
            predictions_of(*predict),
            kept@,
            walk[n],
            state_before(done, walk, state, n),
            done[walk[n]],
        ) by {
            assert(visited(ask, done, walk, state, n));
            assert(walk.contains(walk[n]) && done.contains_key(walk[n]));
            let (c, r) = (walk[n].0 as usize, walk[n].1 as usize);
            assert((c as int, r as int) == walk[n]);
        }
        assert(answered(predictions_of(*predict), kept@, done, *scs, state));
        assert forall|p: int| 0 <= p < 3 implies (#[trigger] frame[p])@.len() == tail_of(plane_no(b0, p)).len() by {
            assert(plane_is(*f, src, done, p, frame[p]@));
            assert(src[p]@ == tail_of(plane_no(b0, p)));
        }
        assert(frame[0]@.len() == tail_of(plane_no(b0, 0)).len());
        assert(frame[1]@.len() == tail_of(plane_no(b0, 1)).len());
        assert(frame[2]@.len() == tail_of(plane_no(b0, 2)).len());
    }
    put_tail(&mut b.pa.full, &frame[0]);
    put_tail(&mut b.u, &frame[1]);
    put_tail(&mut b.v, &frame[2]);
    assert(is_filtered(*scs, *centre, b0, *b, frame)) by {
        assert forall|p: int| 0 <= p < 3 implies refilled(plane_no(b0, p), plane_no(*b, p), (#[trigger] frame[p])@) by {
            assert(p == 0 || p == 1 || p == 2);
        }
    }
    Ghost((src, frame, done))
}

/// Filters a picture with the pictures of its window that take part, pads it
/// again, and reports what has changed.
pub fn ra_mctf_filter<
    P: Fn(usize, usize, usize, TfSearchState) -> TfPrediction,
    W: Fn(RepadPlan, (u8, u8, u8, u8), TfPicBufs) -> TfPicBufs,
    T: Fn() -> (u32, u32),
    D: Fn(u32, u32) -> i8,
>(
    scs: &RaTfScs,
    centre_slot: usize,
    centre: &TfCentre,
    settings: &TfSettings,
    window: &TfWindow,
    q: i32,
    frames: &mut Vec<TfPicBufs>,
    predict: &P,
    repad: &W,
    totals: &T,
    direction: &D,
) -> (r: RaMctfOut)
    requires
        centre_slot < old(frames)@.len(),
        picture_fits(*scs, old(frames)@[centre_slot as int]),
        window_fits(*window),
        strength_fits(*scs, *centre, centre.is_key_frame, filters_chroma(*settings, *centre), q as int),
        is_repad(*repad, scs.true_width as int, scs.true_height as int),
        kept_slots(*settings, *window).len() > 0 ==> call_requires(*totals, ()),
        forall|h: u32, v: u32| #[trigger] call_requires(*direction, (h, v)),
        forall|f: TfFilter, src: [Vec<u8>; 3]|
            is_filter(f, *scs, *settings, *centre, q as int, old(frames)@[centre_slot as int]) && planes_of(
                old(frames)@[centre_slot as int],
                src,
            ) ==> #[trigger] predicts(
                *predict,
                f,
                src,
                kept_slots(*settings, *window),
                block_grid(*scs).0,
                block_grid(*scs).1,
            ),
    ensures
        final(frames)@.len() == old(frames)@.len(),
        forall|i: int|
            0 <= i < old(frames)@.len() && i != centre_slot ==> #[trigger] final(frames)@[i] == old(frames)@[i],
        picture_filtered(
            *scs,
            *centre,
            *settings,
            kept_slots(*settings, *window),
            q as int,
            predictions_of(*predict),
            *repad,
            old(frames)@[centre_slot as int],
            final(frames)@[centre_slot as int],
        ),
        is_report(
            *scs,
            *centre,
            kept_slots(*settings, *window),
            final(frames)@[centre_slot as int],
            *totals,
            *direction,
            r,
        ),
{
    let ghost all = frames@;
    let slots: Vec<usize> = tf_reference_slots(window.past, window.future, settings.ref_frame_factor);
    proof {
        lemma_reference_slots(
            window.past as int,
            window.future as int,
            if settings.ref_frame_factor < 1 {
                1
            } else {
                settings.ref_frame_factor as int
            },
        );
        lemma_taking_part_len(slots@, window.members@, window.stats, slots@.len() as int);
    }
    let kept: Vec<usize> = tf_kept_slots(&slots, &window.members, &window.stats);
    let mut b: TfPicBufs = frames.remove(centre_slot);
    let ghost b0 = b;
    let tf_chroma: bool = init_tf_chroma(settings.chroma_lvl, &centre.noise_levels_log1p_fp16);
    let f: TfFilter = TfFilter {
        tf_chroma,
        tf_mv_dist_th: init_tf_mv_dist_th(scs.aligned_width, scs.aligned_height),
        decay: tf_decay_factors(scs, centre, centre.is_key_frame, tf_chroma, q),
        stride: [b.pa.full.stride, b.u.stride, b.v.stride],
    };
    assert(is_filter(f, *scs, *settings, *centre, q as int, b0)) by {
        assert forall|p: int| 0 <= p < 3 implies #[trigger] f.stride[p] == plane_no(b0, p).stride by {
            assert(p == 0 || p == 1 || p == 2);
        }
    }
    let plan: RepadPlan = pad_and_decimate_filtered_pic(
        1,
        1,
        (scs.aligned_width - scs.true_width) as usize,
        (scs.aligned_height - scs.true_height) as usize,
        settings.chroma_lvl != 0,
        scs.aligned_width as usize,
        scs.aligned_height as usize,
        (b.pa.full.stride - b.pa.full.width) / 2,
    );
    proof {
        vstd::arithmetic::power2::lemma2_to64();
        assert(plan == repad_plan(*scs, *settings, b0));
        assert forall|src: [Vec<u8>; 3]| #[trigger] planes_of(b0, src) implies predicts(
            *predict,
            f,
            src,
            kept@,
            block_grid(*scs).0,
            block_grid(*scs).1,
        ) by {
            assert(kept@ == kept_slots(*settings, *window));
            assert(predicts(
                *predict,
                f,
                src,
                kept_slots(*settings, *window),
                block_grid(*scs).0,
                block_grid(*scs).1,
            ));
        }
    }
    let state: TfSearchState = Default::default();
    let found: Ghost<([Vec<u8>; 3], [Vec<u8>; 3], Map<(int, int), Seq<TfPrediction>>)> = filter_picture(
        scs,
        centre,
        &f,
        &kept,
        &mut b,
        state,
        predict,
    );
    let ghost (src, out, done) = found@;
    let ghost mid = b;
    let hme: (u8, u8, u8, u8) = tf_enable_hme_flags(settings.hme_me_level);
    let b: TfPicBufs = repad(plan, hme, b);
    proof {
        assert(frame_is(f, src, done, out));
        assert(is_fresh(state));
        assert(is_filtered(*scs, *centre, b0, mid, out));
        assert(call_ensures(
            *repad,
            (repad_plan(*scs, *settings, b0), hme_levels(settings.hme_me_level), mid),
            b,
        ));
        assert(repadded(mid, b, scs.true_width as int, scs.true_height as int));
        assert(refilled(plane_no(b0, 0), plane_no(mid, 0), out[0]@));
        assert(plane_repadded(
            plane_no(mid, 0),
            plane_no(b, 0),
            plane_size(scs.true_width as int, scs.true_height as int, 0).0,
            plane_size(scs.true_width as int, scs.true_height as int, 0).1,
        ));
    }
    let (horz, vert): (u32, u32) = if kept.len() == 0 {
        (0, 0)
    } else {
        totals()
    };
    let motion_direction: i8 = direction(horz, vert);
    let filt_to_unfilt_diff: Option<u32> = if centre.is_islice {
        match &b.saved_y {
            Some(saved) => Some(change_of(scs, &b.pa.full, saved)),
            None => None,
        }
    } else {
        None
    };
    frames.insert(centre_slot, b);
    proof {
        assert(frames@[centre_slot as int] == b);
        assert forall|i: int| 0 <= i < all.len() && i != centre_slot implies #[trigger] frames@[i] == all[i] by {
        }
    }
    RaMctfOut { tf_tot_horz_blks: horz, tf_tot_vert_blks: vert, filt_to_unfilt_diff, motion_direction }
}

proof fn lemma_stepped(from: int, to: int, step: int)
    requires
        0 <= from,
        to <= 64,
        step > 0,
    ensures
        stepped(from, to, step).len() <= if to >= from {
            to - from + 1
        } else {
            0
        },
        forall|i: int| 0 <= i < stepped(from, to, step).len() ==> from <= #[trigger] stepped(from, to, step)[i] <= to,
    decreases max_int(to - from + 1, 0),
{
    if from <= to {
        lemma_stepped(from + step, to, step);
        let rest = stepped(from + step, to, step);
        assert(stepped(from, to, step) == seq![from as usize] + rest);
    }
}

proof fn lemma_reference_slots(past: int, future: int, step: int)
    requires
        0 <= past,
        0 <= future,
        past + future <= 64,
        step > 0,
    ensures
        reference_slots(past, future, step).len() <= past + future,
        forall|i: int|
            0 <= i < reference_slots(past, future, step).len() ==> (#[trigger] reference_slots(past, future, step)[i])
                < past + future + 1,
{
    lemma_stepped(0, past - 1, step);
    lemma_stepped(past + 1, past + future, step);
}

proof fn lemma_taking_part_len(slots: Seq<usize>, members: Seq<TfMember>, w: TfWindowStats, n: int)
    requires
        0 <= n,
    ensures
        taking_part(slots, members, w, n).len() <= n,
    decreases n,
{
    if n > 0 {
        lemma_taking_part_len(slots, members, w, n - 1);
    }
}

proof fn lemma_plane_kept(
    f: TfFilter,
    src: [Vec<u8>; 3],
    done: Map<(int, int), Seq<TfPrediction>>,
    out: [Vec<u8>; 3],
    before: PaPlane,
    mid: PaPlane,
    p: int,
)
    requires
        0 <= p < 3,
        frame_is(f, src, done, out),
        forall|b: (int, int)| #[trigger] done.contains_key(b) ==> done[b].len() == 0,
        src[p]@ == tail_of(before),
        before.org <= before.buf@.len(),
        f.stride[p] == before.stride,
        before.stride > 0 || before.buf@.len() == 0,
        refilled(before, mid, out[p]@),
    ensures
        mid.buf@ == before.buf@,
{
    assert(plane_is(f, src, done, p, out[p]@));
    assert forall|k: int| 0 <= k < src[p]@.len() implies out[p]@[k] == src[p]@[k] by {
        unpredicted_blocks_are_kept(f, src, done, out, p, k);
    }
    assert(out[p]@ =~= src[p]@);
    assert(mid.buf@ =~= before.buf@);
}

proof fn lemma_extract_kept(before: PaPlane, after: PaPlane, s: Seq<u8>, w: int, h: int)
    requires
        plane_repadded(before, after, w, h),
        before.width <= w,
        before.height <= h,
        is_extract(s, before),
    ensures
        is_extract(s, after),
{
    let bw = before.width as int;
    assert forall|k: int| 0 <= k < s.len() implies #[trigger] s[k] == after.buf@[pos(
        after.org as int,
        after.stride as int,
        bw,
        k,
    )] by {
        assert(bw > 0) by (nonlinear_arith)
            requires
                0 <= k < bw * before.height,
                bw >= 0,
        ;
        lemma_raster_split(k, bw, before.height as int);
        assert(after.buf@[cell(after, k / bw, k % bw)] == before.buf@[cell(before, k / bw, k % bw)]);
    }
}

proof fn lemma_no_change(scs: RaTfScs, before: PaPlane, after: PaPlane, saved: Seq<u8>, k: int)
    requires
        0 < scs.aligned_width <= 0xff00,
        0 < scs.aligned_height <= 0xff00,
        64 <= scs.sb_size <= 0xffff,
        before.wf(),
        before.org <= before.buf@.len(),
        before.width == scs.aligned_width,
        before.height == scs.aligned_height,
        before.width <= before.stride,
        scs.aligned_height * before.stride + scs.aligned_width <= usize::MAX,
        scs.aligned_height * scs.aligned_width + scs.aligned_width <= usize::MAX,
        plane_repadded(before, after, scs.aligned_width as int, scs.aligned_height as int),
        is_extract(saved, before),
        0 <= k < change_blocks(scs),
    ensures
        change_at(scs, after, saved)(k) == 0,
{
    let w = scs.aligned_width as int;
    let h = scs.aligned_height as int;
    let stride = before.stride;
    let pair = block_pair(w, h, scs.sb_size as int, stride, w as usize, k);
    lemma_pair_inside(scs, stride, k);
    let (x, y) = choose|x: int, y: int| #[trigger] pair_at(w, h, stride as int, pair, x, y);
    let bw = pair.4 as int;
    let bh = pair.5 as int;
    let f = squared_gap_at(
        tail_of(after),
        pair.0 as int,
        pair.1 as int,
        saved,
        pair.2 as int,
        pair.3 as int,
        bw,
    );
    lemma_mul_nonnegative(bw, bh);
    assert forall|i: int| 0 <= i < bw * bh implies 0 <= #[trigger] f(i) <= 0 by {
        lemma_raster_split(i, bw, bh);
        let r = y + i / bw;
        let c = x + i % bw;
        lemma_mul_is_distributive_add_other_way(stride as int, y, i / bw);
        lemma_mul_is_distributive_add_other_way(w, y, i / bw);
        lemma_mul_inequality(r, h - 1, stride as int);
        lemma_mul_nonnegative(r, stride as int);
        let at = pos(pair.2 as int, w, bw, i);
        assert(at == r * w + c);
        vstd::arithmetic::div_mod::lemma_fundamental_div_mod_converse(at, w, r, c);
        lemma_mul_inequality(r, h - 1, w);
        lemma_mul_nonnegative(r, w);
        lemma_mul_is_distributive_add_other_way(w, h - 1, 1);
        vstd::arithmetic::mul::lemma_mul_is_commutative(w, h);
        assert(saved[at] == before.buf@[pos(before.org as int, stride as int, w, at)]);
        assert(after.buf@[cell(after, r, c)] == before.buf@[cell(before, r, c)]);
        assert(pos(before.org as int, stride as int, w, at) == cell(before, r, c));
        assert(tail_of(after)[r * stride + c] == after.buf@[cell(after, r, c)]);
        assert(pos(pair.0 as int, pair.1 as int, bw, i) == r * stride + c);
        let d = tail_of(after)[r * stride + c] - saved[at];
        assert(d * d == 0) by (nonlinear_arith)
            requires
                d == 0,
        ;
        assert(f(i) == d * d);
    }
    lemma_total_bounds(f, bw * bh, 0, 0);
}

/// A picture that stands alone in its window is kept: its planes hold the
/// samples they held, its unfiltered luma is saved, and what is reported of an
/// intra slice is that nothing moved and nothing has changed.
pub proof fn a_lone_picture_is_kept<
    W: Fn(RepadPlan, (u8, u8, u8, u8), TfPicBufs) -> TfPicBufs,
    T: Fn() -> (u32, u32),
    D: Fn(u32, u32) -> i8,
>(
    scs: RaTfScs,
    centre: TfCentre,
    settings: TfSettings,
    window: TfWindow,
    q: int,
    predict: Predictions,
    repad: W,
    totals: T,
    direction: D,
    before: TfPicBufs,
    after: TfPicBufs,
    r: RaMctfOut,
)
    requires
        picture_fits(scs, before),
        window_fits(window),
        window.past == 0,
        window.future == 0,
        centre.is_islice,
        scs.true_width == scs.aligned_width,
        scs.true_height == scs.aligned_height,
        forall|p: int|
            0 <= p < 3 ==> {
                let plane = #[trigger] plane_no(before, p);
                let size = plane_size(scs.aligned_width as int, scs.aligned_height as int, p);
                &&& plane.width <= size.0
                &&& plane.height <= size.1
                &&& plane.stride > 0 || plane.buf@.len() == 0
            },
        is_repad(repad, scs.true_width as int, scs.true_height as int),
        picture_filtered(scs, centre, settings, kept_slots(settings, window), q, predict, repad, before, after),
        is_report(scs, centre, kept_slots(settings, window), after, totals, direction, r),
    ensures
        after.do_tf,
        after.saved_y is Some,
        is_extract((after.saved_y->0)@, before.pa.full),
        forall|p: int, s: Seq<u8>|
            0 <= p < 3 && is_extract(s, #[trigger] plane_no(before, p)) ==> #[trigger] is_extract(s, plane_no(after, p)),
        r.filt_to_unfilt_diff == Some(0u32),
        r.tf_tot_horz_blks == 0,
        r.tf_tot_vert_blks == 0,
{
    let kept = kept_slots(settings, window);
    let step = if settings.ref_frame_factor < 1 {
        1
    } else {
        settings.ref_frame_factor as int
    };
    lemma_reference_slots(0, 0, step);
    lemma_taking_part_len(
        reference_slots(0, 0, step),
        window.members@,
        window.stats,
        reference_slots(0, 0, step).len() as int,
    );
    let (f, src, out, done, first, mid) = choose|
        f: TfFilter,
        src: [Vec<u8>; 3],
        out: [Vec<u8>; 3],
        done: Map<(int, int), Seq<TfPrediction>>,
        first: TfSearchState,
        mid: TfPicBufs,
    |
        {
            &&& is_filter(f, scs, settings, centre, q, before)
            &&& planes_of(before, src)
            &&& #[trigger] frame_is(f, src, done, out)
            &&& #[trigger] is_fresh(first)
            &&& answered(predict, kept, done, scs, first)
            &&& #[trigger] is_filtered(scs, centre, before, mid, out)
            &&& call_ensures(
                repad,
                (repad_plan(scs, settings, before), hme_levels(settings.hme_me_level), mid),
                after,
            )
        };
    assert forall|b: (int, int)| #[trigger] done.contains_key(b) implies done[b].len() == 0 by {
        let walk = walk_of(scs);
        let n = walk.index_of(b);
        assert(block_answered(predict, kept, walk[n], state_before(done, walk, first, n), done[walk[n]]));
    }
    assert forall|p: int| 0 <= p < 3 implies plane_repadded(
        #[trigger] plane_no(before, p),
        plane_no(after, p),
        plane_size(scs.aligned_width as int, scs.aligned_height as int, p).0,
        plane_size(scs.aligned_width as int, scs.aligned_height as int, p).1,
    ) by {
        assert(src[p]@ == tail_of(plane_no(before, p)));
        assert(refilled(plane_no(before, p), plane_no(mid, p), out[p]@));
        assert(f.stride[p] == plane_no(before, p).stride);
        lemma_plane_kept(f, src, done, out, plane_no(before, p), plane_no(mid, p), p);
        let b = plane_no(before, p);
        let m = plane_no(mid, p);
        let a = plane_no(after, p);
        assert(plane_repadded(
            m,
            a,
            plane_size(scs.aligned_width as int, scs.aligned_height as int, p).0,
            plane_size(scs.aligned_width as int, scs.aligned_height as int, p).1,
        ));
        assert forall|r: int, c: int| cell(m, r, c) == cell(b, r, c) by {
        }
    }
    assert forall|p: int, s: Seq<u8>|
        0 <= p < 3 && is_extract(s, #[trigger] plane_no(before, p)) implies #[trigger] is_extract(
        s,
        plane_no(after, p),
    ) by {
        let size = plane_size(scs.aligned_width as int, scs.aligned_height as int, p);
        lemma_extract_kept(plane_no(before, p), plane_no(after, p), s, size.0, size.1);
    }
    let n = change_blocks(scs);
    let g = change_at(scs, after.pa.full, (after.saved_y->0)@);
    lemma_blocks(scs.aligned_width as int, scs.sb_size as int);
    lemma_blocks(scs.aligned_height as int, scs.sb_size as int);
    vstd::arithmetic::mul::lemma_mul_strictly_positive(
        blocks(scs.aligned_width as int, scs.sb_size as int),
        blocks(scs.aligned_height as int, scs.sb_size as int),
    );
    assert forall|k: int| 0 <= k < n implies 0 <= #[trigger] g(k) <= 0 by {
        assert(plane_no(before, 0) == before.pa.full && plane_no(after, 0) == after.pa.full);
        lemma_no_change(scs, before.pa.full, after.pa.full, (after.saved_y->0)@, k);
    }
    lemma_total_bounds(g, n, 0, 0);
    assert(0int / n == 0) by (nonlinear_arith)
        requires
            n > 0,
    ;
}

} // verus!
