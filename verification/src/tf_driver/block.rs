//! A 64x64 block as a reference predicts it: searched between samples, and
//! predicted with the motion that the search leaves.

use vstd::prelude::*;

use crate::temporal_filtering::blocks::{mb_edges, MbEdges, TfPredictionRequest};
use crate::temporal_filtering::subpel::{
    refined, refinement_scored, refinements_read_what_they_measure, scores, subpel_params_for_block, Best, Scores,
    TfSearchCtrls, TfSubpelSearchParams,
};
use crate::tf_driver::accumulate::TfPrediction;
use crate::tf_driver::ladder::{
    asked, best_of, convert_64x64_info, converted, eighths, errors_of, is_whole, lemma_converted, motion_fits,
    quarter_whole, refinable, refinery, run_subpel, search_sizes, searched, searched_requests,
    searches_read_what_they_find, sized, subpel_block, tf_block_requests, QuarterErrors, Refinery, TfLadderCtrls,
    TfMotion, TfSearchState, BLOCK_ERROR_INT_MAX,
};
use crate::tf_driver::predict::{plane_request, predictions_stay_in_their_block, tf_predict_one, TfPlanePrediction};
use crate::tf_driver::tiles::{apart, filled, holds_sample, request_fits, requests_part_the_block, tiles};
use crate::tpl::dispenser::{at, block_written, covered, samples_of, tpl_copy_block};

verus! {

/// A displacement of a block that is to be scored.
#[derive(Debug, Clone, Copy)]
pub struct TfScoreRequest {
    /// Slot of the window that the block is predicted from.
    pub slot: usize,
    pub block: TfSubpelSearchParams,
    /// Distances of the block to the edges of the picture.
    pub edges: MbEdges,
    pub mv_x: i16,
    pub mv_y: i16,
    /// By how much the rows of the prediction are thinned out.
    pub shift: u8,
}

/// A quarter of a block whose error is to be measured.
#[derive(Debug)]
pub struct TfQuarterRequest {
    /// Place of the 64x64 block in the picture.
    pub sb_x: u32,
    pub sb_y: u32,
    /// The luma of the 64x64 block as it is predicted.
    pub prediction: Vec<u8>,
    pub quarter: usize,
    /// By how much the rows are thinned out.
    pub shift: u8,
}

/// The kernels that a block is searched and predicted with.
pub struct TfBlockKernels<M, S, P, Q> {
    /// Motion of the block at a place towards a slot, in whole samples.
    pub motion: M,
    /// Error of a displacement.
    pub score: S,
    /// Samples of a plane of a block, row by row, from a slot.
    pub predict: P,
    /// Error of a quarter of a predicted block.
    pub quarter_error: Q,
}

/// How blocks are searched and predicted.
#[derive(Debug, Clone, Copy)]
pub struct TfBlockSettings {
    pub ladder: TfLadderCtrls,
    pub subpel: TfSearchCtrls,
    pub two_tap_filters: u32,
    pub regular_filters: u32,
    pub subpel_early_exit_th: u8,
    pub tf_chroma: bool,
    pub sb_size: u32,
    /// Size of the picture in units of four samples.
    pub mi_cols: i32,
    pub mi_rows: i32,
}

impl TfBlockSettings {
    /// The picture is of a size whose edges can be told.
    pub open spec fn fits(&self) -> bool {
        &&& 0 <= self.mi_cols <= 0x3ff_0000
        &&& 0 <= self.mi_rows <= 0x3ff_0000
    }
}

/// The motion of a block towards a slot, errors and samples can be asked for;
/// a displacement has one error.
pub open spec fn kernels_fit<
    M: Fn(usize, u32, u32) -> TfMotion,
    S: Fn(TfScoreRequest) -> u64,
    P: Fn(usize, TfPlanePrediction) -> Vec<u8>,
    Q: Fn(TfQuarterRequest) -> u64,
>(k: TfBlockKernels<M, S, P, Q>, slot: usize, sb_x: u32, sb_y: u32) -> bool {
    &&& call_requires(k.motion, (slot, sb_x, sb_y))
    &&& forall|m: TfMotion| #[trigger] call_ensures(k.motion, (slot, sb_x, sb_y), m) ==> motion_fits(m)
    &&& is_score_kernel(k.score, slot)
    &&& is_plane_kernel(k.predict, slot)
    &&& forall|r: TfQuarterRequest|
        r.quarter < 4 && r.prediction@.len() == 4096 ==> #[trigger] call_requires(k.quarter_error, (r,))
}

/// `score` is a function of its argument, defined for every block of a slot.
pub open spec fn is_score_kernel<S: Fn(TfScoreRequest) -> u64>(score: S, slot: usize) -> bool {
    &&& forall|r: TfScoreRequest| r.slot == slot ==> #[trigger] call_requires(score, (r,))
    &&& forall|r: TfScoreRequest, a: u64, b: u64| #[trigger]
        call_ensures(score, (r,), a) && #[trigger] call_ensures(score, (r,), b) ==> a == b
}

/// `predict` returns the samples of a square block from a slot.
pub open spec fn is_plane_kernel<P: Fn(usize, TfPlanePrediction) -> Vec<u8>>(predict: P, slot: usize) -> bool {
    &&& forall|p: TfPlanePrediction| #[trigger] call_requires(predict, (slot, p))
    &&& forall|p: TfPlanePrediction, v: Vec<u8>| #[trigger]
        call_ensures(predict, (slot, p), v) ==> v@.len() == p.size * p.size
}

/// Distances of a block in the search to the edges of the picture.
pub open spec fn block_edges(b: TfSubpelSearchParams, s: TfBlockSettings) -> MbEdges {
    let size = b.bsize as int / 4;
    MbEdges {
        top: (-32 * (b.pu_origin_y as int / 4)) as i32,
        bottom: (32 * (s.mi_rows - size - b.pu_origin_y as int / 4)) as i32,
        left: (-32 * (b.pu_origin_x as int / 4)) as i32,
        right: (32 * (s.mi_cols - size - b.pu_origin_x as int / 4)) as i32,
    }
}

/// What `score` is asked about a displacement of a block.
pub open spec fn score_request(
    slot: usize,
    b: TfSubpelSearchParams,
    s: TfBlockSettings,
    mv_x: i16,
    mv_y: i16,
    shift: u8,
) -> TfScoreRequest {
    TfScoreRequest { slot, block: b, edges: block_edges(b, s), mv_x, mv_y, shift }
}

/// The error that `score` returns.
pub open spec fn error_of<S: Fn(TfScoreRequest) -> u64>(score: S, r: TfScoreRequest) -> u64 {
    choose|e: u64| #[trigger] call_ensures(score, (r,), e)
}

/// The errors of the displacements of a block.
pub open spec fn block_scores<S: Fn(TfScoreRequest) -> u64>(
    score: S,
    slot: usize,
    b: TfSubpelSearchParams,
    s: TfBlockSettings,
) -> Scores {
    Scores {
        of: |x: i16, y: i16, shift: u8| error_of(score, score_request(slot, b, s, x, y, shift)),
        asked: |x: i16, y: i16, shift: u8|
            call_ensures(
                score,
                (score_request(slot, b, s, x, y, shift),),
                error_of(score, score_request(slot, b, s, x, y, shift)),
            ),
    }
}

/// A block of the search, with the filters it is interpolated with.
pub open spec fn search_target(
    s: TfBlockSettings,
    size: u32,
    x: u32,
    y: u32,
    sb_x: u32,
    sb_y: u32,
) -> TfSubpelSearchParams {
    subpel_block(
        size,
        x,
        y,
        sb_x as int,
        sb_y as int,
        s.subpel,
        if s.subpel.use_2tap && size >= 32 {
            s.two_tap_filters
        } else {
            s.regular_filters
        },
    )
}

/// A block is refined from where the search in whole samples left it.
pub open spec fn unrefined(vx: i16, vy: i16) -> Best {
    Best { dist: BLOCK_ERROR_INT_MAX, x: vx, y: vy }
}

/// The results of refining the blocks of a 64x64 block with the errors of
/// `score`.
pub open spec fn block_refinery<S: Fn(TfScoreRequest) -> u64>(
    score: S,
    s: TfBlockSettings,
    slot: usize,
    sb_x: u32,
    sb_y: u32,
) -> Refinery {
    Refinery {
        best: |size: int, x: int, y: int, vx: i16, vy: i16|
            {
                let b = search_target(s, size as u32, x as u32, y as u32, sb_x, sb_y);
                refined(
                    b,
                    s.subpel,
                    s.subpel_early_exit_th as u32,
                    unrefined(eighths(vx), eighths(vy)),
                    block_scores(score, slot, b, s),
                )
            },
        asked: |size: int, x: int, y: int, vx: i16, vy: i16|
            {
                let b = search_target(s, size as u32, x as u32, y as u32, sb_x, sb_y);
                refinement_scored(
                    b,
                    s.subpel,
                    s.subpel_early_exit_th as u32,
                    unrefined(eighths(vx), eighths(vy)),
                    block_scores(score, slot, b, s),
                )
            },
    }
}

/// A block has been refined from a displacement in eighths, with the errors
/// of `score`.
pub open spec fn block_refined<S: Fn(TfScoreRequest) -> u64>(
    score: S,
    s: TfBlockSettings,
    slot: usize,
    b: TfSubpelSearchParams,
    vx: i16,
    vy: i16,
    r: Best,
) -> bool {
    let th = s.subpel_early_exit_th as u32;
    &&& r == refined(b, s.subpel, th, unrefined(vx, vy), block_scores(score, slot, b, s))
    &&& refinement_scored(b, s.subpel, th, unrefined(vx, vy), block_scores(score, slot, b, s))
    &&& r.dist <= BLOCK_ERROR_INT_MAX
}

/// Refines a block of a 64x64 block from a displacement in eighths.
fn refine_block<S: Fn(TfScoreRequest) -> u64>(
    score: &S,
    s: &TfBlockSettings,
    slot: usize,
    sb_x: u32,
    sb_y: u32,
    size: u32,
    x: u32,
    y: u32,
    vx: i16,
    vy: i16,
) -> (r: Best)
    requires
        s.fits(),
        is_score_kernel(*score, slot),
        size == 8 || size == 16 || size == 32 || size == 64,
        x * size < 64,
        y * size < 64,
        sb_x as int % 0x1_0000 <= 0xffc0,
        sb_y as int % 0x1_0000 <= 0xffc0,
        refinable(vx as int),
        refinable(vy as int),
    ensures
        block_refined(*score, *s, slot, search_target(*s, size, x, y, sb_x, sb_y), vx, vy, r),
{
    let filters: u32 = if s.subpel.use_2tap && size >= 32 {
        s.two_tap_filters
    } else {
        s.regular_filters
    };
    let block: TfSubpelSearchParams = subpel_params_for_block(
        size,
        x,
        y,
        sb_x,
        sb_y,
        &s.subpel,
        filters,
        8,
    );
    let mi_size: i32 = (size / 4) as i32;
    let edges: MbEdges = mb_edges(block.pu_origin_x, block.pu_origin_y, mi_size, mi_size, s.mi_cols, s.mi_rows);
    assert(block == search_target(*s, size, x, y, sb_x, sb_y));
    assert(edges == block_edges(block, *s));
    let at = |mv_x: i16, mv_y: i16, shift: u8| -> (e: u64)
        ensures
            call_ensures(*score, (score_request(slot, block, *s, mv_x, mv_y, shift),), e),
        { score(TfScoreRequest { slot, block, edges, mv_x, mv_y, shift }) };
    let r: Best = run_subpel(
        size,
        x,
        y,
        sb_x,
        sb_y,
        &s.subpel,
        s.two_tap_filters,
        s.regular_filters,
        s.subpel_early_exit_th as u32,
        vx,
        vy,
        &at,
    );
    proof {
        let kernel = block_scores(*score, slot, block, *s);
        assert forall|mx: i16, my: i16, sh: u8| #[trigger] (scores(at).asked)(mx, my, sh) implies (scores(at).of)(
            mx,
            my,
            sh,
        ) == (kernel.of)(mx, my, sh) && (kernel.asked)(mx, my, sh) by {
            let q = score_request(slot, block, *s, mx, my, sh);
            assert(call_ensures(*score, (q,), (scores(at).of)(mx, my, sh)));
            assert(call_ensures(*score, (q,), error_of(*score, q)));
        }
        refinements_read_what_they_measure(
            block,
            s.subpel,
            s.subpel_early_exit_th as u32,
            unrefined(vx, vy),
            scores(at),
            kernel,
        );
    }
    r
}

/// What request `i` asks of a plane.
pub open spec fn asked_of_plane(
    reqs: Seq<TfPredictionRequest>,
    i: int,
    plane: usize,
    s: TfBlockSettings,
) -> TfPlanePrediction {
    plane_request(reqs[i], plane, s.sb_size as int, s.mi_cols as int, s.mi_rows as int)
}

/// The plane holds what `predict` returned for a block of it.
pub open spec fn plane_holds<P: Fn(usize, TfPlanePrediction) -> Vec<u8>>(
    predict: P,
    slot: usize,
    p: TfPlanePrediction,
    plane: Seq<u8>,
) -> bool {
    exists|v: Vec<u8>| #[trigger]
        call_ensures(predict, (slot, p), v) && forall|r: int, c: int|
            0 <= r < p.size && 0 <= c < p.size ==> plane[#[trigger] at(p.dst as int, p.dst_stride as int, r, c)]
                == v@[at(0, p.size as int, r, c)]
}

/// Side of a plane of a 64x64 block.
pub open spec fn plane_side(plane: int) -> int {
    if plane == 0 {
        64
    } else {
        32
    }
}

/// The plane holds what the first `n` requests ask for, and zeros behind its
/// rows.
pub open spec fn plane_predicted<P: Fn(usize, TfPlanePrediction) -> Vec<u8>>(
    predict: P,
    slot: usize,
    s: TfBlockSettings,
    reqs: Seq<TfPredictionRequest>,
    n: int,
    plane: usize,
    samples: Seq<u8>,
) -> bool {
    &&& samples.len() == 4096
    &&& forall|i: int| 0 <= i < n ==> plane_holds(predict, slot, #[trigger] asked_of_plane(reqs, i, plane, s), samples)
    &&& forall|k: int| plane_side(plane as int) * plane_side(plane as int) <= k < 4096 ==> #[trigger] samples[k] == 0
}

/// The planes hold what the requests ask for; chroma is predicted where it is
/// filtered.
pub open spec fn planes_predicted<P: Fn(usize, TfPlanePrediction) -> Vec<u8>>(
    predict: P,
    slot: usize,
    s: TfBlockSettings,
    reqs: Seq<TfPredictionRequest>,
    planes: [Vec<u8>; 3],
) -> bool {
    let n = reqs.len() as int;
    &&& plane_predicted(predict, slot, s, reqs, n, 0, planes[0]@)
    &&& if s.tf_chroma {
        plane_predicted(predict, slot, s, reqs, n, 1, planes[1]@) && plane_predicted(
            predict,
            slot,
            s,
            reqs,
            n,
            2,
            planes[2]@,
        )
    } else {
        planes[1]@ == seq![0u8; 4096] && planes[2]@ == seq![0u8; 4096]
    }
}

/// Where a request lies in a plane.
proof fn lemma_place(a: TfPredictionRequest, plane: usize, s: TfBlockSettings)
    requires
        plane < 3,
        request_fits(a),
    ensures
        ({
            let p = plane_request(a, plane, s.sb_size as int, s.mi_cols as int, s.mi_rows as int);
            let (x, y) = (a.local_origin_x as int, a.local_origin_y as int);
            if plane == 0 {
                p.dst == x + y * 64 && p.dst_stride == 64 && p.size == a.bsize
            } else {
                p.dst == x / 2 + (y / 2) * 32 && p.dst_stride == 32 && p.size == a.bsize as int / 2
            }
        }),
{
    let p = plane_request(a, plane, s.sb_size as int, s.mi_cols as int, s.mi_rows as int);
    let (x, y) = (a.local_origin_x as int, a.local_origin_y as int);
    if plane == 0 {
        assert(64int / 1 == 64 && x / 1 == x && y / 1 == y);
        assert(p.dst_stride == 64 && p.dst == x + y * 64 && p.size == a.bsize);
    } else {
        assert(64int / 2 == 32);
        assert(p.dst_stride == 32 && p.dst == x / 2 + (y / 2) * 32 && p.size == a.bsize as int / 2);
    }
}

proof fn lemma_apart(
    a: TfPredictionRequest,
    b: TfPredictionRequest,
    plane: usize,
    s: TfBlockSettings,
    r: int,
    c: int,
    t: int,
    u: int,
)
    requires
        plane < 3,
        request_fits(a),
        request_fits(b),
        apart(a, b),
        0 <= r < plane_request(a, plane, s.sb_size as int, s.mi_cols as int, s.mi_rows as int).size,
        0 <= c < plane_request(a, plane, s.sb_size as int, s.mi_cols as int, s.mi_rows as int).size,
        0 <= t < plane_request(b, plane, s.sb_size as int, s.mi_cols as int, s.mi_rows as int).size,
        0 <= u < plane_request(b, plane, s.sb_size as int, s.mi_cols as int, s.mi_rows as int).size,
    ensures
        ({
            let p = plane_request(a, plane, s.sb_size as int, s.mi_cols as int, s.mi_rows as int);
            let q = plane_request(b, plane, s.sb_size as int, s.mi_cols as int, s.mi_rows as int);
            let i = at(p.dst as int, p.dst_stride as int, r, c);
            &&& i != at(q.dst as int, q.dst_stride as int, t, u)
            &&& 0 <= i < plane_side(plane as int) * plane_side(plane as int)
        }),
{
    lemma_at(a, plane, s, r, c);
    lemma_at(b, plane, s, t, u);
    let ss: int = if plane == 0 {
        1
    } else {
        2
    };
    lemma_rows(
        plane_side(plane as int),
        a.local_origin_y as int / ss + r,
        a.local_origin_x as int / ss + c,
        b.local_origin_y as int / ss + t,
        b.local_origin_x as int / ss + u,
    );
}

/// Where sample `(r, c)` of a request lies in a plane.
proof fn lemma_at(a: TfPredictionRequest, plane: usize, s: TfBlockSettings, r: int, c: int)
    requires
        plane < 3,
        request_fits(a),
        0 <= r < plane_request(a, plane, s.sb_size as int, s.mi_cols as int, s.mi_rows as int).size,
        0 <= c < plane_request(a, plane, s.sb_size as int, s.mi_cols as int, s.mi_rows as int).size,
    ensures
        ({
            let p = plane_request(a, plane, s.sb_size as int, s.mi_cols as int, s.mi_rows as int);
            let ss: int = if plane == 0 {
                1
            } else {
                2
            };
            let (x, y) = (a.local_origin_x as int / ss, a.local_origin_y as int / ss);
            let w = plane_side(plane as int);
            &&& p.size == a.bsize as int / ss
            &&& at(p.dst as int, p.dst_stride as int, r, c) == (y + r) * w + (x + c)
            &&& 0 <= x + c < w
            &&& 0 <= y + r < w
        }),
{
    lemma_place(a, plane, s);
}

proof fn lemma_rows(w: int, y: int, x: int, v: int, u: int)
    requires
        w == 64 || w == 32,
        0 <= x < w,
        0 <= u < w,
        0 <= y < w,
    ensures
        (y, x) != (v, u) ==> y * w + x != v * w + u,
        0 <= y * w + x < w * w,
{
}

/// One more request has been predicted into a plane.
proof fn lemma_next_request<P: Fn(usize, TfPlanePrediction) -> Vec<u8>>(
    predict: P,
    slot: usize,
    s: TfBlockSettings,
    reqs: Seq<TfPredictionRequest>,
    n: int,
    plane: usize,
    before: Seq<u8>,
    after: Seq<u8>,
    v: Vec<u8>,
)
    requires
        plane < 3,
        0 <= n < reqs.len(),
        tiles(reqs),
        plane_predicted(predict, slot, s, reqs, n, plane, before),
        call_ensures(predict, (slot, asked_of_plane(reqs, n, plane, s)), v),
        ({
            let p = asked_of_plane(reqs, n, plane, s);
            block_written(
                before,
                after,
                p.dst as int,
                p.dst_stride as int,
                p.size as int,
                samples_of(v@, 0, p.size as int),
            )
        }),
    ensures
        plane_predicted(predict, slot, s, reqs, n + 1, plane, after),
{
    let p = asked_of_plane(reqs, n, plane, s);
    assert(request_fits(reqs[n]));
    assert forall|i: int| 0 <= i < n + 1 implies plane_holds(
        predict,
        slot,
        #[trigger] asked_of_plane(reqs, i, plane, s),
        after,
    ) by {
        if i < n {
            let o = asked_of_plane(reqs, i, plane, s);
            assert(plane_holds(predict, slot, o, before));
            let w = choose|w: Vec<u8>| #[trigger]
                call_ensures(predict, (slot, o), w) && forall|r: int, c: int|
                    0 <= r < o.size && 0 <= c < o.size ==> before[#[trigger] at(
                        o.dst as int,
                        o.dst_stride as int,
                        r,
                        c,
                    )] == w@[at(0, o.size as int, r, c)];
            assert(request_fits(reqs[i]) && apart(reqs[i], reqs[n]));
            assert forall|r: int, c: int| 0 <= r < o.size && 0 <= c < o.size implies after[#[trigger] at(
                o.dst as int,
                o.dst_stride as int,
                r,
                c,
            )] == w@[at(0, o.size as int, r, c)] by {
                let k = at(o.dst as int, o.dst_stride as int, r, c);
                assert(p.size > 0);
                lemma_apart(reqs[i], reqs[n], plane, s, r, c, 0, 0);
                assert(!covered(k, p.dst as int, p.dst_stride as int, p.size as int)) by {
                    if covered(k, p.dst as int, p.dst_stride as int, p.size as int) {
                        let (t, u) = choose|t: int, u: int|
                            0 <= t < p.size && 0 <= u < p.size && k == #[trigger] at(
                                p.dst as int,
                                p.dst_stride as int,
                                t,
                                u,
                            );
                        lemma_apart(reqs[i], reqs[n], plane, s, r, c, t, u);
                    }
                }
                assert(after[k] == before[k]);
            }
        } else {
            assert forall|r: int, c: int| 0 <= r < p.size && 0 <= c < p.size implies after[#[trigger] at(
                p.dst as int,
                p.dst_stride as int,
                r,
                c,
            )] == v@[at(0, p.size as int, r, c)] by {}
        }
    }
    assert forall|k: int| plane_side(plane as int) * plane_side(plane as int) <= k < 4096 implies #[trigger] after[k]
        == 0 by {
        assert(!covered(k, p.dst as int, p.dst_stride as int, p.size as int)) by {
            if covered(k, p.dst as int, p.dst_stride as int, p.size as int) {
                let (t, u) = choose|t: int, u: int|
                    0 <= t < p.size && 0 <= u < p.size && k == #[trigger] at(p.dst as int, p.dst_stride as int, t, u);
                lemma_at(reqs[n], plane, s, t, u);
            }
        }
        assert(after[k] == before[k]);
    }
}

/// Predicts what a request asks of a plane.
fn predict_plane<P: Fn(usize, TfPlanePrediction) -> Vec<u8>>(
    predict: &P,
    slot: usize,
    p: &TfPlanePrediction,
    plane: Vec<u8>,
    Ghost(s): Ghost<TfBlockSettings>,
    Ghost(reqs): Ghost<Seq<TfPredictionRequest>>,
    Ghost(n): Ghost<int>,
) -> (r: Vec<u8>)
    requires
        is_plane_kernel(*predict, slot),
        p.plane < 3,
        0 <= n < reqs.len(),
        tiles(reqs),
        *p == asked_of_plane(reqs, n, p.plane, s),
        plane_predicted(*predict, slot, s, reqs, n, p.plane, plane@),
    ensures
        plane_predicted(*predict, slot, s, reqs, n + 1, p.plane, r@),
{
    let v: Vec<u8> = predict(slot, *p);
    let mut out: Vec<u8> = plane;
    proof {
        assert(request_fits(reqs[n]));
        predictions_stay_in_their_block(reqs[n], p.plane, s.sb_size as int, s.mi_cols as int, s.mi_rows as int);
        lemma_place(reqs[n], p.plane, s);
        assert(p.dst_stride * p.dst_stride <= 4096) by (nonlinear_arith)
            requires
                p.dst_stride == 64 || p.dst_stride == 32,
        ;
        assert((p.size - 1) * p.size + p.size == p.size * p.size) by (nonlinear_arith);
    }
    tpl_copy_block(v.as_slice(), 0, p.size, out.as_mut_slice(), p.dst, p.dst_stride, p.size);
    proof {
        lemma_next_request(*predict, slot, s, reqs, n, p.plane, plane@, out@, v);
    }
    out
}

/// Predicts the planes of a searched block.
fn predict_planes<P: Fn(usize, TfPlanePrediction) -> Vec<u8>>(
    predict: &P,
    slot: usize,
    s: &TfBlockSettings,
    reqs: &Vec<TfPredictionRequest>,
) -> (r: [Vec<u8>; 3])
    requires
        s.fits(),
        is_plane_kernel(*predict, slot),
        tiles(reqs@),
    ensures
        planes_predicted(*predict, slot, *s, reqs@, r),
{
    let (mut y, mut u, mut v): (Vec<u8>, Vec<u8>, Vec<u8>) = (vec![0u8; 4096], vec![0u8; 4096], vec![0u8; 4096]);
    assert(y@ =~= seq![0u8; 4096]);
    let mut i: usize = 0;
    while i < reqs.len()
        invariant
            i <= reqs@.len(),
            s.fits(),
            is_plane_kernel(*predict, slot),
            tiles(reqs@),
            plane_predicted(*predict, slot, *s, reqs@, i as int, 0, y@),
            s.tf_chroma ==> plane_predicted(*predict, slot, *s, reqs@, i as int, 1, u@) && plane_predicted(
                *predict,
                slot,
                *s,
                reqs@,
                i as int,
                2,
                v@,
            ),
            !s.tf_chroma ==> u@ == seq![0u8; 4096] && v@ == seq![0u8; 4096],
        decreases reqs@.len() - i,
    {
        assert(request_fits(reqs@[i as int]));
        let asks: Vec<TfPlanePrediction> = tf_predict_one(&reqs[i], s.tf_chroma, s.sb_size, s.mi_cols, s.mi_rows);
        y = predict_plane(predict, slot, &asks[0], y, Ghost(*s), Ghost(reqs@), Ghost(i as int));
        if s.tf_chroma {
            u = predict_plane(predict, slot, &asks[1], u, Ghost(*s), Ghost(reqs@), Ghost(i as int));
            v = predict_plane(predict, slot, &asks[2], v, Ghost(*s), Ghost(reqs@), Ghost(i as int));
        }
        i = i + 1;
    }
    [y, u, v]
}

/// Searches a block in all its sizes with the errors of `score`. True where it
/// is predicted as a whole.
fn search_with<S: Fn(TfScoreRequest) -> u64>(
    score: &S,
    s: &TfBlockSettings,
    slot: usize,
    sb_x: u32,
    sb_y: u32,
    motion: &TfMotion,
    st: &mut TfSearchState,
) -> (r: bool)
    requires
        s.fits(),
        is_score_kernel(*score, slot),
        motion_fits(*motion),
        sb_x as int % 0x1_0000 <= 0xffc0,
        sb_y as int % 0x1_0000 <= 0xffc0,
    ensures
        r == is_whole(*motion, s.ladder, block_refinery(*score, *s, slot, sb_x, sb_y)),
        sized(*old(st), *final(st), *motion, s.ladder, block_refinery(*score, *s, slot, sb_x, sb_y)),
{
    let ghost before = *st;
    let refine = |size: u32, x: u32, y: u32, vx: i16, vy: i16| -> (b: Best)
        requires
            size == 8 || size == 16 || size == 32 || size == 64,
            x * size < 64,
            y * size < 64,
            refinable(vx as int),
            refinable(vy as int),
        ensures
            block_refined(*score, *s, slot, search_target(*s, size, x, y, sb_x, sb_y), vx, vy, b),
        { refine_block(score, s, slot, sb_x, sb_y, size, x, y, vx, vy) };
    let ghost found = refinery(refine);
    let ghost wanted = block_refinery(*score, *s, slot, sb_x, sb_y);
    let whole: bool = search_sizes(st, motion, &s.ladder, &refine);
    proof {
        assert forall|size: int, x: int, y: int, vx: i16, vy: i16| #[trigger]
            (found.asked)(size, x, y, vx, vy) implies (found.best)(size, x, y, vx, vy) == (wanted.best)(
            size,
            x,
            y,
            vx,
            vy,
        ) && (wanted.asked)(size, x, y, vx, vy) by {
            assert(asked(refine, size, x, y, vx, vy));
            assert(block_refined(
                *score,
                *s,
                slot,
                search_target(*s, size as u32, x as u32, y as u32, sb_x, sb_y),
                eighths(vx),
                eighths(vy),
                best_of(refine, size, x, y, vx, vy),
            ));
        }
        searches_read_what_they_find(before, *st, *motion, s.ladder, found, wanted);
    }
    whole
}

/// Lets the quarters of a block take over its displacement, with their errors
/// in its prediction.
fn measure_quarters<Q: Fn(TfQuarterRequest) -> u64>(
    quarter_error: &Q,
    s: &TfBlockSettings,
    sb_x: u32,
    sb_y: u32,
    luma: &Vec<u8>,
    st: &mut TfSearchState,
)
    requires
        forall|r: TfQuarterRequest|
            r.quarter < 4 && r.prediction@.len() == 4096 ==> #[trigger] call_requires(*quarter_error, (r,)),
        luma@.len() == 4096,
    ensures
        converted(*old(st), *final(st), prediction_errors(*quarter_error, *s, sb_x, sb_y, luma@)),
{
    let ghost before = *st;
    let ghost errors = prediction_errors(*quarter_error, *s, sb_x, sb_y, luma@);
    let shift: u8 = s.subpel.sub_sampling_shift;
    let measure = |mv_x: i16, mv_y: i16, quarter: usize| -> (e: u64)
        requires
            quarter < 4,
        ensures
            (prediction_errors(*quarter_error, *s, sb_x, sb_y, luma@).is)(mv_x, mv_y, quarter as int, e),
        {
            let prediction: Vec<u8> = vstd::slice::slice_to_vec(luma.as_slice());
            quarter_error(TfQuarterRequest { sb_x, sb_y, prediction, quarter, shift })
        };
    convert_64x64_info(st, &measure);
    proof {
        let w = Best { dist: 0, x: before.mv_64x64_x, y: before.mv_64x64_y };
        assert forall|i: int| 0 <= i < 4 implies #[trigger] quarter_whole(before, *st, w, errors, i) by {
            assert(quarter_whole(before, *st, w, errors_of(measure), i));
        }
    }
}

/// The errors that `quarter_error` returns of a predicted block.
pub open spec fn prediction_errors<Q: Fn(TfQuarterRequest) -> u64>(
    quarter_error: Q,
    s: TfBlockSettings,
    sb_x: u32,
    sb_y: u32,
    luma: Seq<u8>,
) -> QuarterErrors {
    QuarterErrors {
        is: |x: i16, y: i16, i: int, e: u64|
            exists|v: Vec<u8>| #[trigger]
                call_ensures(
                    quarter_error,
                    (
                        TfQuarterRequest {
                            sb_x,
                            sb_y,
                            prediction: v,
                            quarter: i as usize,
                            shift: s.subpel.sub_sampling_shift,
                        },
                    ),
                    e,
                ) && v@ == luma,
    }
}

/// The block has been searched from the state `before`, with the motion found
/// in whole samples, and its planes hold what the state that the search left
/// asks for.
pub open spec fn block_predicted<
    M: Fn(usize, u32, u32) -> TfMotion,
    S: Fn(TfScoreRequest) -> u64,
    P: Fn(usize, TfPlanePrediction) -> Vec<u8>,
    Q: Fn(TfQuarterRequest) -> u64,
>(
    k: TfBlockKernels<M, S, P, Q>,
    s: TfBlockSettings,
    slot: usize,
    sb_x: u32,
    sb_y: u32,
    before: TfSearchState,
    motion: TfMotion,
    r: TfPrediction,
) -> bool {
    let refine = block_refinery(k.score, s, slot, sb_x, sb_y);
    let errors = prediction_errors(k.quarter_error, s, sb_x, sb_y, r.planes[0]@);
    let whole = is_whole(motion, s.ladder, refine);
    &&& call_ensures(k.motion, (slot, sb_x, sb_y), motion)
    &&& searched(before, r.state, motion, s.ladder, refine, errors)
    &&& planes_predicted(
        k.predict,
        slot,
        s,
        searched_requests(r.state, whole, sb_x as int, sb_y as int),
        r.planes,
    )
}

/// Searches a 64x64 block towards a slot of the window, and predicts it with
/// the motion that the search leaves. The search starts from what the one
/// before it left, and hands on what it leaves itself.
pub fn tf_predict_block<
    M: Fn(usize, u32, u32) -> TfMotion,
    S: Fn(TfScoreRequest) -> u64,
    P: Fn(usize, TfPlanePrediction) -> Vec<u8>,
    Q: Fn(TfQuarterRequest) -> u64,
>(
    kernels: &TfBlockKernels<M, S, P, Q>,
    settings: &TfBlockSettings,
    slot: usize,
    sb_x: u32,
    sb_y: u32,
    state: TfSearchState,
) -> (r: TfPrediction)
    requires
        kernels_fit(*kernels, slot, sb_x, sb_y),
        settings.fits(),
        sb_x as int % 0x1_0000 <= 0xffc0,
        sb_y as int % 0x1_0000 <= 0xffc0,
    ensures
        exists|motion: TfMotion| #[trigger]
            block_predicted(*kernels, *settings, slot, sb_x, sb_y, state, motion, r),
{
    let motion: TfMotion = (kernels.motion)(slot, sb_x, sb_y);
    let mut st: TfSearchState = state;
    let whole: bool = search_with(&kernels.score, settings, slot, sb_x, sb_y, &motion, &mut st);
    let ghost mid = st;
    let reqs: Vec<TfPredictionRequest> = tf_block_requests(&st, whole, sb_x, sb_y);
    proof {
        requests_part_the_block(st, whole, sb_x as int, sb_y as int);
    }
    let planes: [Vec<u8>; 3] = predict_planes(&kernels.predict, slot, settings, &reqs);
    if whole {
        measure_quarters(&kernels.quarter_error, settings, sb_x, sb_y, &planes[0], &mut st);
        proof {
            lemma_converted(
                state,
                mid,
                st,
                motion,
                settings.ladder,
                block_refinery(kernels.score, *settings, slot, sb_x, sb_y),
                prediction_errors(kernels.quarter_error, *settings, sb_x, sb_y, planes[0]@),
            );
        }
    }
    let r: TfPrediction = TfPrediction { planes, state: st };
    assert(block_predicted(*kernels, *settings, slot, sb_x, sb_y, state, motion, r));
    r
}

/// Luma sample `(x, y)` of a block is the one that `predict` returned for
/// request `i`.
pub open spec fn luma_from<P: Fn(usize, TfPlanePrediction) -> Vec<u8>>(
    predict: P,
    slot: usize,
    s: TfBlockSettings,
    reqs: Seq<TfPredictionRequest>,
    i: int,
    luma: Seq<u8>,
    x: int,
    y: int,
) -> bool {
    let q = reqs[i];
    exists|v: Vec<u8>| #[trigger]
        call_ensures(predict, (slot, asked_of_plane(reqs, i, 0, s)), v) && luma[64 * y + x] == v@[(y
            - q.local_origin_y) * q.bsize + (x - q.local_origin_x)]
}

/// However a block is split, every luma sample of its prediction is the one
/// that was returned for the request that holds it.
pub proof fn every_sample_is_predicted<P: Fn(usize, TfPlanePrediction) -> Vec<u8>>(
    predict: P,
    slot: usize,
    s: TfBlockSettings,
    st: TfSearchState,
    whole: bool,
    sb_x: u32,
    sb_y: u32,
    planes: [Vec<u8>; 3],
    x: int,
    y: int,
) -> (i: int)
    requires
        planes_predicted(predict, slot, s, searched_requests(st, whole, sb_x as int, sb_y as int), planes),
        0 <= x < 64,
        0 <= y < 64,
    ensures
        ({
            let reqs = searched_requests(st, whole, sb_x as int, sb_y as int);
            &&& 0 <= i < reqs.len()
            &&& holds_sample(reqs[i], x, y)
            &&& luma_from(predict, slot, s, reqs, i, planes[0]@, x, y)
        }),
{
    let reqs = searched_requests(st, whole, sb_x as int, sb_y as int);
    requests_part_the_block(st, whole, sb_x as int, sb_y as int);
    assert(filled(reqs, x, y));
    let i = choose|i: int| 0 <= i < reqs.len() && holds_sample(#[trigger] reqs[i], x, y);
    let q = reqs[i];
    let p = asked_of_plane(reqs, i, 0, s);
    let luma = planes[0]@;
    assert(request_fits(q));
    lemma_place(q, 0, s);
    let (r, c) = (y - q.local_origin_y, x - q.local_origin_x);
    lemma_at(q, 0, s, r, c);
    assert(plane_holds(predict, slot, p, luma));
    let v = choose|v: Vec<u8>| #[trigger]
        call_ensures(predict, (slot, p), v) && forall|r: int, c: int|
            0 <= r < p.size && 0 <= c < p.size ==> luma[#[trigger] at(p.dst as int, p.dst_stride as int, r, c)]
                == v@[at(0, p.size as int, r, c)];
    assert(luma[at(p.dst as int, p.dst_stride as int, r, c)] == v@[at(0, p.size as int, r, c)]);
    assert(at(p.dst as int, p.dst_stride as int, r, c) == 64 * y + x);
    assert(call_ensures(predict, (slot, asked_of_plane(reqs, i, 0, s)), v));
    i
}

} // verus!
