//! The refinement of a displacement between samples, and the change that
//! filtering made to a frame.

use vstd::arithmetic::mul::{lemma_mul_inequality, lemma_mul_is_commutative, lemma_mul_nonnegative};
use vstd::prelude::*;

use crate::arith::{lemma_raster_bounds, lemma_raster_index, low_u16, low_u32, min_int, total};

verus! {

/// The block that is refined, and the step that is being tried.
#[derive(Debug, Clone, Copy, PartialEq, Eq, Structural)]
pub struct TfSubpelSearchParams {
    pub subsampling_shift: u8,
    pub interp_filters: u32,
    pub pu_origin_x: u16,
    pub pu_origin_y: u16,
    pub local_origin_x: u16,
    pub local_origin_y: u16,
    pub bsize: u32,
    pub is_highbd: bool,
    pub encoder_bit_depth: i32,
    pub idx_x: u32,
    pub idx_y: u32,
    /// Centre of the step.
    pub mv_x: i16,
    pub mv_y: i16,
    /// The step.
    pub xd: i16,
    pub yd: i16,
    /// From two on, no diagonal steps.
    pub subpel_pel_mode: u8,
}

impl Default for TfSubpelSearchParams {
    fn default() -> (r: Self)
        ensures
            r == (TfSubpelSearchParams {
                subsampling_shift: 0,
                interp_filters: 0,
                pu_origin_x: 0,
                pu_origin_y: 0,
                local_origin_x: 0,
                local_origin_y: 0,
                bsize: 0,
                is_highbd: false,
                encoder_bit_depth: 0,
                idx_x: 0,
                idx_y: 0,
                mv_x: 0,
                mv_y: 0,
                xd: 0,
                yd: 0,
                subpel_pel_mode: 0,
            }),
    {
        TfSubpelSearchParams {
            subsampling_shift: 0,
            interp_filters: 0,
            pu_origin_x: 0,
            pu_origin_y: 0,
            local_origin_x: 0,
            local_origin_y: 0,
            bsize: 0,
            is_highbd: false,
            encoder_bit_depth: 0,
            idx_x: 0,
            idx_y: 0,
            mv_x: 0,
            mv_y: 0,
            xd: 0,
            yd: 0,
            subpel_pel_mode: 0,
        }
    }
}

/// How fine the refinement goes. A level with mode zero is left out; from two
/// on it takes no diagonal steps.
#[derive(Debug, Clone, Copy, PartialEq, Eq, Structural)]
pub struct TfSearchCtrls {
    pub half_pel_mode: u8,
    pub quarter_pel_mode: u8,
    pub eight_pel_mode: u8,
    pub use_2tap: bool,
    pub sub_sampling_shift: u8,
    pub enable_8x8_pred: bool,
}

impl Default for TfSearchCtrls {
    fn default() -> (r: Self)
        ensures
            r == (TfSearchCtrls {
                half_pel_mode: 0,
                quarter_pel_mode: 0,
                eight_pel_mode: 0,
                use_2tap: false,
                sub_sampling_shift: 0,
                enable_8x8_pred: false,
            }),
    {
        TfSearchCtrls {
            half_pel_mode: 0,
            quarter_pel_mode: 0,
            eight_pel_mode: 0,
            use_2tap: false,
            sub_sampling_shift: 0,
            enable_8x8_pred: false,
        }
    }
}

/// The best displacement so far and its distortion.
pub struct Best {
    pub dist: u64,
    pub x: i16,
    pub y: i16,
}

/// `score` is a function of its arguments, defined everywhere.
pub open spec fn is_score<F: Fn(i16, i16, u8) -> u64>(score: F) -> bool {
    &&& forall|x: i16, y: i16, s: u8| #[trigger] call_requires(score, (x, y, s))
    &&& forall|x: i16, y: i16, s: u8, r1: u64, r2: u64|
        #[trigger] call_ensures(score, (x, y, s), r1) && #[trigger] call_ensures(score, (x, y, s), r2) ==> r1 == r2
}

/// What `score` returns: the distortion of a displacement.
pub open spec fn score_of<F: Fn(i16, i16, u8) -> u64>(score: F, x: i16, y: i16, shift: u8) -> u64 {
    choose|r: u64| #[trigger] call_ensures(score, (x, y, shift), r)
}

/// The distortions of displacements, and which of them have been measured.
pub struct Scores {
    pub of: spec_fn(i16, i16, u8) -> u64,
    pub asked: spec_fn(i16, i16, u8) -> bool,
}

/// The distortions that `score` returns.
pub open spec fn scores<F: Fn(i16, i16, u8) -> u64>(score: F) -> Scores {
    Scores {
        of: |x: i16, y: i16, shift: u8| score_of(score, x, y, shift),
        asked: |x: i16, y: i16, shift: u8| call_ensures(score, (x, y, shift), score_of(score, x, y, shift)),
    }
}

/// Distortion below which the search ends.
pub open spec fn enough(p: TfSubpelSearchParams, th: u32) -> int {
    (p.bsize * p.bsize) * th * (if p.is_highbd {
        2int
    } else {
        1
    })
}

/// The step is not tried: a diagonal one where none are, one that nothing
/// could be gained by, or any once the distortion is low enough.
pub open spec fn skips(p: TfSubpelSearchParams, th: u32, best: Best) -> bool {
    ||| p.subpel_pel_mode >= 2 && p.xd != 0 && p.yd != 0
    ||| best.dist == 0
    ||| th != 0 && best.dist < enough(p, th)
}

/// The best displacement once a step has been tried. Only a strictly lower
/// distortion replaces it.
pub open spec fn tried(p: TfSubpelSearchParams, th: u32, best: Best, score: Scores) -> Best {
    let x = (p.mv_x + p.xd) as i16;
    let y = (p.mv_y + p.yd) as i16;
    let shift = if p.xd == 0 && p.yd == 0 {
        p.subsampling_shift
    } else {
        0
    };
    let d = (score.of)(x, y, shift);
    if !skips(p, th, best) && d < best.dist {
        Best { dist: d, x, y }
    } else {
        best
    }
}

/// The distortion of a step has been measured, unless it is not tried.
pub open spec fn step_scored(
    p: TfSubpelSearchParams,
    th: u32,
    best: Best,
    score: Scores,
) -> bool {
    let x = (p.mv_x + p.xd) as i16;
    let y = (p.mv_y + p.yd) as i16;
    let shift = if p.xd == 0 && p.yd == 0 {
        p.subsampling_shift
    } else {
        0
    };
    !skips(p, th, best) ==> (score.asked)(x, y, shift)
}

/// The search threshold is computed without overflow.
pub open spec fn threshold_fits(p: TfSubpelSearchParams, th: u32) -> bool {
    p.bsize * p.bsize <= u32::MAX && (p.bsize * p.bsize) * th <= u32::MAX
}

/// Tries a step from a displacement.
pub fn check_position<F: Fn(i16, i16, u8) -> u64>(
    p: &TfSubpelSearchParams,
    tf_subpel_early_exit_th: u32,
    best_dist: &mut u64,
    best_mv_x: &mut i16,
    best_mv_y: &mut i16,
    score: &F,
)
    requires
        is_score(*score),
        threshold_fits(*p, tf_subpel_early_exit_th),
        i16::MIN <= p.mv_x + p.xd <= i16::MAX,
        i16::MIN <= p.mv_y + p.yd <= i16::MAX,
    ensures
        (Best { dist: *final(best_dist), x: *final(best_mv_x), y: *final(best_mv_y) }) == tried(
            *p,
            tf_subpel_early_exit_th,
            (Best { dist: *old(best_dist), x: *old(best_mv_x), y: *old(best_mv_y) }),
            scores(*score),
        ),
        step_scored(
            *p,
            tf_subpel_early_exit_th,
            (Best { dist: *old(best_dist), x: *old(best_mv_x), y: *old(best_mv_y) }),
            scores(*score),
        ),
{
    if p.subpel_pel_mode >= 2 && p.xd != 0 && p.yd != 0 {
        return;
    }
    if *best_dist == 0 {
        return;
    }
    if tf_subpel_early_exit_th != 0 {
        let one: u64 = (p.bsize * p.bsize * tf_subpel_early_exit_th) as u64;
        let th: u64 = if p.is_highbd {
            2 * one
        } else {
            one
        };
        if *best_dist < th {
            return;
        }
    }
    let mv_x: i16 = p.mv_x + p.xd;
    let mv_y: i16 = p.mv_y + p.yd;
    let shift: u8 = if p.xd == 0 && p.yd == 0 {
        p.subsampling_shift
    } else {
        0
    };
    let distortion: u64 = score(mv_x, mv_y, shift);
    if distortion < *best_dist {
        *best_dist = distortion;
        *best_mv_x = mv_x;
        *best_mv_y = mv_y;
    }
}

/// The parameters of step `k` of a level: three columns from left to right,
/// each from top to bottom, around the best displacement before the level.
pub open spec fn step_params(p: TfSubpelSearchParams, mode: u8, step: int, best: Best, k: int) -> TfSubpelSearchParams {
    TfSubpelSearchParams {
        subpel_pel_mode: mode,
        mv_x: best.x,
        mv_y: best.y,
        xd: ((k / 3 - 1) * step) as i16,
        yd: ((k % 3 - 1) * step) as i16,
        ..p
    }
}

/// The best displacement after the first `k` places of a level; the centre is
/// left out.
pub open spec fn level_walk(
    p: TfSubpelSearchParams,
    mode: u8,
    step: int,
    th: u32,
    best: Best,
    score: Scores,
    k: int,
) -> Best
    decreases k,
{
    if k <= 0 {
        best
    } else {
        let before = level_walk(p, mode, step, th, best, score, k - 1);
        if k - 1 == 4 {
            before
        } else {
            tried(step_params(p, mode, step, best, k - 1), th, before, score)
        }
    }
}

/// The best displacement after a level.
pub open spec fn level(
    p: TfSubpelSearchParams,
    mode: u8,
    step: int,
    th: u32,
    best: Best,
    score: Scores,
) -> Best {
    if mode == 0 {
        best
    } else {
        level_walk(p, mode, step, th, best, score, 9)
    }
}

/// The distortion of each of the first `n` places of a level that are tried
/// has been measured.
pub open spec fn places_scored(
    p: TfSubpelSearchParams,
    mode: u8,
    step: int,
    th: u32,
    best: Best,
    score: Scores,
    n: int,
) -> bool {
    forall|k: int|
        0 <= k < n && k != 4 ==> step_scored(
            #[trigger] step_params(p, mode, step, best, k),
            th,
            level_walk(p, mode, step, th, best, score, k),
            score,
        )
}

/// The distortion of every place of a level that is tried has been measured.
pub open spec fn level_scored(
    p: TfSubpelSearchParams,
    mode: u8,
    step: int,
    th: u32,
    best: Best,
    score: Scores,
) -> bool {
    mode != 0 ==> places_scored(p, mode, step, th, best, score, 9)
}

/// The distortion of every displacement that a refinement tries has been
/// measured.
pub open spec fn refinement_scored(
    p: TfSubpelSearchParams,
    c: TfSearchCtrls,
    th: u32,
    best: Best,
    score: Scores,
) -> bool {
    let first = TfSubpelSearchParams {
        subpel_pel_mode: c.half_pel_mode,
        mv_x: best.x,
        mv_y: best.y,
        xd: 0,
        yd: 0,
        ..p
    };
    let start = tried(first, th, best, score);
    let half = level(p, c.half_pel_mode, 4, th, start, score);
    let quarter = level(p, c.quarter_pel_mode, 2, th, half, score);
    &&& step_scored(first, th, best, score)
    &&& level_scored(p, c.half_pel_mode, 4, th, start, score)
    &&& level_scored(p, c.quarter_pel_mode, 2, th, half, score)
    &&& level_scored(p, c.eight_pel_mode, 1, th, quarter, score)
}

/// The best displacement after a refinement: the start itself, then half,
/// quarter and eighth samples, each around the best one before.
pub open spec fn refined(
    p: TfSubpelSearchParams,
    c: TfSearchCtrls,
    th: u32,
    best: Best,
    score: Scores,
) -> Best {
    let start = tried(
        TfSubpelSearchParams {
            subpel_pel_mode: c.half_pel_mode,
            mv_x: best.x,
            mv_y: best.y,
            xd: 0,
            yd: 0,
            ..p
        },
        th,
        best,
        score,
    );
    let half = level(p, c.half_pel_mode, 4, th, start, score);
    let quarter = level(p, c.quarter_pel_mode, 2, th, half, score);
    level(p, c.eight_pel_mode, 1, th, quarter, score)
}

proof fn lemma_level_range(
    p: TfSubpelSearchParams,
    mode: u8,
    step: int,
    th: u32,
    best: Best,
    score: Scores,
    k: int,
)
    requires
        1 <= step <= 4,
        step - 32768 <= best.x <= 32767 - step,
        step - 32768 <= best.y <= 32767 - step,
        k <= 9,
    ensures
        -step <= level_walk(p, mode, step, th, best, score, k).x - best.x <= step,
        -step <= level_walk(p, mode, step, th, best, score, k).y - best.y <= step,
    decreases k,
{
    if k > 0 {
        lemma_level_range(p, mode, step, th, best, score, k - 1);
        lemma_step(k - 1, step);
    }
}

proof fn lemma_step(k: int, step: int)
    requires
        0 <= k < 9,
        1 <= step <= 4,
    ensures
        -step <= (k / 3 - 1) * step <= step,
        -step <= (k % 3 - 1) * step <= step,
{
    assert(k / 3 - 1 == -1 || k / 3 - 1 == 0 || k / 3 - 1 == 1);
    assert(k % 3 - 1 == -1 || k % 3 - 1 == 0 || k % 3 - 1 == 1);
    assert(-1 * step == -step);
    assert(0 * step == 0);
}

fn search_level<F: Fn(i16, i16, u8) -> u64>(
    p: &TfSubpelSearchParams,
    mode: u8,
    step: i16,
    th: u32,
    best_dist: &mut u64,
    best_mv_x: &mut i16,
    best_mv_y: &mut i16,
    score: &F,
)
    requires
        is_score(*score),
        threshold_fits(*p, th),
        1 <= step <= 4,
        step - 32768 <= *old(best_mv_x) <= 32767 - step,
        step - 32768 <= *old(best_mv_y) <= 32767 - step,
    ensures
        (Best { dist: *final(best_dist), x: *final(best_mv_x), y: *final(best_mv_y) }) == level(
            *p,
            mode,
            step as int,
            th,
            (Best { dist: *old(best_dist), x: *old(best_mv_x), y: *old(best_mv_y) }),
            scores(*score),
        ),
        -step <= *final(best_mv_x) - *old(best_mv_x) <= step,
        -step <= *final(best_mv_y) - *old(best_mv_y) <= step,
        level_scored(
            *p,
            mode,
            step as int,
            th,
            (Best { dist: *old(best_dist), x: *old(best_mv_x), y: *old(best_mv_y) }),
            scores(*score),
        ),
{
    if mode == 0 {
        return;
    }
    let ghost best = Best { dist: *best_dist, x: *best_mv_x, y: *best_mv_y };
    let cx: i16 = *best_mv_x;
    let cy: i16 = *best_mv_y;
    let mut k: i16 = 0;
    while k < 9
        invariant
            0 <= k <= 9,
            is_score(*score),
            threshold_fits(*p, th),
            1 <= step <= 4,
            cx == best.x,
            cy == best.y,
            step - 32768 <= cx <= 32767 - step,
            step - 32768 <= cy <= 32767 - step,
            (Best { dist: *best_dist, x: *best_mv_x, y: *best_mv_y }) == level_walk(
                *p,
                mode,
                step as int,
                th,
                best,
                scores(*score),
                k as int,
            ),
            places_scored(*p, mode, step as int, th, best, scores(*score), k as int),
        decreases 9 - k,
    {
        if k != 4 {
            proof {
                lemma_step(k as int, step as int);
            }
            let mut q: TfSubpelSearchParams = *p;
            q.subpel_pel_mode = mode;
            q.mv_x = cx;
            q.mv_y = cy;
            q.xd = (k / 3 - 1) * step;
            q.yd = (k % 3 - 1) * step;
            assert(q == step_params(*p, mode, step as int, best, k as int));
            check_position(&q, th, best_dist, best_mv_x, best_mv_y, score);
        }
        k = k + 1;
    }
    proof {
        lemma_level_range(*p, mode, step as int, th, best, scores(*score), 9);
    }
}

/// Refines a displacement.
pub fn subpel_search<F: Fn(i16, i16, u8) -> u64>(
    p: &TfSubpelSearchParams,
    ctrls: &TfSearchCtrls,
    tf_subpel_early_exit_th: u32,
    best_dist: &mut u64,
    best_mv_x: &mut i16,
    best_mv_y: &mut i16,
    score: &F,
)
    requires
        is_score(*score),
        threshold_fits(*p, tf_subpel_early_exit_th),
        -32761 <= *old(best_mv_x) <= 32760,
        -32761 <= *old(best_mv_y) <= 32760,
    ensures
        (Best { dist: *final(best_dist), x: *final(best_mv_x), y: *final(best_mv_y) }) == refined(
            *p,
            *ctrls,
            tf_subpel_early_exit_th,
            (Best { dist: *old(best_dist), x: *old(best_mv_x), y: *old(best_mv_y) }),
            scores(*score),
        ),
        refinement_scored(
            *p,
            *ctrls,
            tf_subpel_early_exit_th,
            (Best { dist: *old(best_dist), x: *old(best_mv_x), y: *old(best_mv_y) }),
            scores(*score),
        ),
{
    let mut q: TfSubpelSearchParams = *p;
    q.subpel_pel_mode = ctrls.half_pel_mode;
    q.mv_x = *best_mv_x;
    q.mv_y = *best_mv_y;
    q.xd = 0;
    q.yd = 0;
    check_position(&q, tf_subpel_early_exit_th, best_dist, best_mv_x, best_mv_y, score);
    search_level(p, ctrls.half_pel_mode, 4, tf_subpel_early_exit_th, best_dist, best_mv_x, best_mv_y, score);
    search_level(p, ctrls.quarter_pel_mode, 2, tf_subpel_early_exit_th, best_dist, best_mv_x, best_mv_y, score);
    search_level(p, ctrls.eight_pel_mode, 1, tf_subpel_early_exit_th, best_dist, best_mv_x, best_mv_y, score);
}

/// `a` and `b` agree on every distortion that `a` has measured.
pub open spec fn agree(a: Scores, b: Scores) -> bool {
    forall|x: i16, y: i16, shift: u8| #[trigger] (a.asked)(x, y, shift) ==> (a.of)(x, y, shift) == (b.of)(x, y, shift)
        && (b.asked)(x, y, shift)
}

proof fn lemma_same_step(p: TfSubpelSearchParams, th: u32, best: Best, a: Scores, b: Scores)
    requires
        agree(a, b),
        step_scored(p, th, best, a),
    ensures
        tried(p, th, best, a) == tried(p, th, best, b),
        step_scored(p, th, best, b),
{
    let x = (p.mv_x + p.xd) as i16;
    let y = (p.mv_y + p.yd) as i16;
    let shift = if p.xd == 0 && p.yd == 0 {
        p.subsampling_shift
    } else {
        0
    };
    if !skips(p, th, best) {
        assert((a.asked)(x, y, shift));
    }
}

proof fn lemma_same_places(
    p: TfSubpelSearchParams,
    mode: u8,
    step: int,
    th: u32,
    best: Best,
    a: Scores,
    b: Scores,
    n: int,
)
    requires
        agree(a, b),
        0 <= n,
        places_scored(p, mode, step, th, best, a, n),
    ensures
        level_walk(p, mode, step, th, best, a, n) == level_walk(p, mode, step, th, best, b, n),
        places_scored(p, mode, step, th, best, b, n),
    decreases n,
{
    if n > 0 {
        lemma_same_places(p, mode, step, th, best, a, b, n - 1);
        if n - 1 != 4 {
            let q = step_params(p, mode, step, best, n - 1);
            lemma_same_step(q, th, level_walk(p, mode, step, th, best, a, n - 1), a, b);
        }
    }
}

proof fn lemma_same_level(p: TfSubpelSearchParams, mode: u8, step: int, th: u32, best: Best, a: Scores, b: Scores)
    requires
        agree(a, b),
        level_scored(p, mode, step, th, best, a),
    ensures
        level(p, mode, step, th, best, a) == level(p, mode, step, th, best, b),
        level_scored(p, mode, step, th, best, b),
{
    if mode != 0 {
        lemma_same_places(p, mode, step, th, best, a, b, 9);
    }
}

/// A refinement depends only on the distortions that it measures.
pub proof fn refinements_read_what_they_measure(
    p: TfSubpelSearchParams,
    c: TfSearchCtrls,
    th: u32,
    best: Best,
    a: Scores,
    b: Scores,
)
    requires
        agree(a, b),
        refinement_scored(p, c, th, best, a),
    ensures
        refined(p, c, th, best, a) == refined(p, c, th, best, b),
        refinement_scored(p, c, th, best, b),
{
    let first = TfSubpelSearchParams {
        subpel_pel_mode: c.half_pel_mode,
        mv_x: best.x,
        mv_y: best.y,
        xd: 0,
        yd: 0,
        ..p
    };
    let start = tried(first, th, best, a);
    let half = level(p, c.half_pel_mode, 4, th, start, a);
    let quarter = level(p, c.quarter_pel_mode, 2, th, half, a);
    lemma_same_step(first, th, best, a, b);
    lemma_same_level(p, c.half_pel_mode, 4, th, start, a, b);
    lemma_same_level(p, c.quarter_pel_mode, 2, th, half, a, b);
    lemma_same_level(p, c.eight_pel_mode, 1, th, quarter, a, b);
}

/// One candidate is no worse than another, and no better only if it is the
/// same.
pub open spec fn improves(before: Best, after: Best) -> bool {
    &&& after.dist <= before.dist
    &&& after.dist == before.dist ==> after == before
}

proof fn lemma_level_improves(
    p: TfSubpelSearchParams,
    mode: u8,
    step: int,
    th: u32,
    best: Best,
    score: Scores,
    k: int,
)
    ensures
        improves(best, level_walk(p, mode, step, th, best, score, k)),
    decreases k,
{
    if k > 0 {
        lemma_level_improves(p, mode, step, th, best, score, k - 1);
    }
}

/// Refinement never raises the distortion, and where it does not lower it, it
/// keeps the displacement: an equal candidate does not replace an earlier one.
pub proof fn refinement_never_worsens(
    p: TfSubpelSearchParams,
    c: TfSearchCtrls,
    th: u32,
    best: Best,
    score: Scores,
)
    ensures
        improves(best, refined(p, c, th, best, score)),
{
    let start = tried(
        TfSubpelSearchParams { subpel_pel_mode: c.half_pel_mode, mv_x: best.x, mv_y: best.y, xd: 0, yd: 0, ..p },
        th,
        best,
        score,
    );
    let half = level(p, c.half_pel_mode, 4, th, start, score);
    let quarter = level(p, c.quarter_pel_mode, 2, th, half, score);
    lemma_level_improves(p, c.half_pel_mode, 4, th, start, score, 9);
    lemma_level_improves(p, c.quarter_pel_mode, 2, th, half, score, 9);
    lemma_level_improves(p, c.eight_pel_mode, 1, th, quarter, score, 9);
}

/// The parameters of the refinement of a block at a column and a row in units
/// of its size.
pub fn subpel_params_for_block(
    bsize: u32,
    idx_x: u32,
    idx_y: u32,
    sb_origin_x: u32,
    sb_origin_y: u32,
    ctrls: &TfSearchCtrls,
    interp_filters: u32,
    encoder_bit_depth: i32,
) -> (r: TfSubpelSearchParams)
    requires
        idx_x * bsize <= u32::MAX,
        idx_y * bsize <= u32::MAX,
        sb_origin_x as int % 0x1_0000 + (idx_x * bsize) % 0x1_0000 <= 0xffff,
        sb_origin_y as int % 0x1_0000 + (idx_y * bsize) % 0x1_0000 <= 0xffff,
    ensures
        r == (TfSubpelSearchParams {
            subsampling_shift: ctrls.sub_sampling_shift,
            interp_filters,
            pu_origin_x: (sb_origin_x as int % 0x1_0000 + (idx_x * bsize) % 0x1_0000) as u16,
            pu_origin_y: (sb_origin_y as int % 0x1_0000 + (idx_y * bsize) % 0x1_0000) as u16,
            local_origin_x: ((idx_x * bsize) % 0x1_0000) as u16,
            local_origin_y: ((idx_y * bsize) % 0x1_0000) as u16,
            bsize,
            is_highbd: encoder_bit_depth != 8,
            encoder_bit_depth,
            idx_x,
            idx_y,
            mv_x: 0,
            mv_y: 0,
            xd: 0,
            yd: 0,
            subpel_pel_mode: 0,
        }),
{
    proof {
        lemma_mul_nonnegative(idx_x as int, bsize as int);
        lemma_mul_nonnegative(idx_y as int, bsize as int);
    }
    let local_origin_x: u16 = low_u16(idx_x * bsize);
    let local_origin_y: u16 = low_u16(idx_y * bsize);
    TfSubpelSearchParams {
        subsampling_shift: ctrls.sub_sampling_shift,
        interp_filters,
        pu_origin_x: low_u16(sb_origin_x) + local_origin_x,
        pu_origin_y: low_u16(sb_origin_y) + local_origin_y,
        local_origin_x,
        local_origin_y,
        bsize,
        is_highbd: encoder_bit_depth != 8,
        encoder_bit_depth,
        idx_x,
        idx_y,
        mv_x: 0,
        mv_y: 0,
        xd: 0,
        yd: 0,
        subpel_pel_mode: 0,
    }
}

/// Blocks across a side.
pub open spec fn blocks(side: int, b64_size: int) -> int {
    (side + b64_size - 1) / b64_size
}

/// The two blocks with number `k` of a frame, counted row by row: their starts
/// and row distances, and their size. Blocks start every 64 samples and end at
/// the frame.
pub open spec fn block_pair(
    width: int,
    height: int,
    b64_size: int,
    filt_stride: usize,
    unfilt_stride: usize,
    k: int,
) -> (usize, usize, usize, usize, u32, u32) {
    let x = 64 * (k % blocks(width, b64_size));
    let y = 64 * (k / blocks(width, b64_size));
    (
        (y * filt_stride + x) as usize,
        filt_stride,
        (y * unfilt_stride + x) as usize,
        unfilt_stride,
        min_int(b64_size, width - x) as u32,
        min_int(b64_size, height - y) as u32,
    )
}

/// What `dist` returns for the first blocks of a frame.
pub open spec fn are_distances<F: Fn(usize, usize, usize, usize, u32, u32) -> u64>(
    dist: F,
    width: int,
    height: int,
    b64_size: int,
    filt_stride: usize,
    unfilt_stride: usize,
    d: Seq<u64>,
) -> bool {
    forall|k: int|
        0 <= k < d.len() ==> call_ensures(
            dist,
            block_pair(width, height, b64_size, filt_stride, unfilt_stride, k),
            #[trigger] d[k],
        )
}

/// The terms of a sum.
pub open spec fn terms_of(d: Seq<u64>) -> spec_fn(int) -> int {
    |k: int| d[k] as int
}

proof fn lemma_terms_grow(d: Seq<u64>, x: u64, n: int)
    requires
        0 <= n <= d.len(),
    ensures
        total(terms_of(d.push(x)), n) == total(terms_of(d), n),
    decreases n,
{
    if n > 0 {
        lemma_terms_grow(d, x, n - 1);
    }
}

/// Mean distortion per block between a filtered frame and the original; the
/// sum wraps at 32 bits.
#[verifier::spinoff_prover]
#[verifier::rlimit(60)]
pub fn filt_unfilt_dist<F: Fn(usize, usize, usize, usize, u32, u32) -> u64>(
    aligned_width: u32,
    aligned_height: u32,
    b64_size: u32,
    filt_stride: usize,
    unfilt_stride: usize,
    sad: &F,
) -> (r: u32)
    requires
        64 <= b64_size <= 0xffff,
        0 < aligned_width <= 0xffff,
        0 < aligned_height <= 0xffff,
        aligned_height * filt_stride + aligned_width <= usize::MAX,
        aligned_height * unfilt_stride + aligned_width <= usize::MAX,
        forall|k: int|
            0 <= k < blocks(aligned_width as int, b64_size as int) * blocks(aligned_height as int, b64_size as int)
                ==> call_requires(
                *sad,
                #[trigger] block_pair(
                    aligned_width as int,
                    aligned_height as int,
                    b64_size as int,
                    filt_stride,
                    unfilt_stride,
                    k,
                ),
            ),
    ensures
        ({
            let n = blocks(aligned_width as int, b64_size as int) * blocks(aligned_height as int, b64_size as int);
            exists|d: Seq<u64>|
                {
                    &&& d.len() == n
                    &&& #[trigger] are_distances(
                        *sad,
                        aligned_width as int,
                        aligned_height as int,
                        b64_size as int,
                        filt_stride,
                        unfilt_stride,
                        d,
                    )
                    &&& r == (total(terms_of(d), n) % 0x1_0000_0000) / n
                }
        }),
{
    let cols: u32 = (aligned_width + b64_size - 1) / b64_size;
    let rows: u32 = (aligned_height + b64_size - 1) / b64_size;
    let ghost mut ds: Seq<u64> = Seq::empty();
    proof {
        lemma_blocks(aligned_width as int, b64_size as int);
        lemma_blocks(aligned_height as int, b64_size as int);
        assert(0 * cols == 0);
    }
    let mut dist: u32 = 0;
    let mut y: u32 = 0;
    while y < rows
        invariant
            y <= rows <= 1024,
            cols <= 1024,
            forall|k: int|
                0 <= k < blocks(aligned_width as int, b64_size as int) * blocks(
                    aligned_height as int,
                    b64_size as int,
                ) ==> call_requires(
                    *sad,
                    #[trigger] block_pair(
                        aligned_width as int,
                        aligned_height as int,
                        b64_size as int,
                        filt_stride,
                        unfilt_stride,
                        k,
                    ),
                ),
            64 <= b64_size <= 0xffff,
            0 < aligned_width <= 0xffff,
            0 < aligned_height <= 0xffff,
            64 * (cols - 1) < aligned_width,
            64 * (rows - 1) < aligned_height,
            cols == blocks(aligned_width as int, b64_size as int),
            rows == blocks(aligned_height as int, b64_size as int),
            aligned_height * filt_stride + aligned_width <= usize::MAX,
            aligned_height * unfilt_stride + aligned_width <= usize::MAX,
            ds.len() == y * cols,
            are_distances(
                *sad,
                aligned_width as int,
                aligned_height as int,
                b64_size as int,
                filt_stride,
                unfilt_stride,
                ds,
            ),
            dist == total(terms_of(ds), y * cols) % 0x1_0000_0000,
        decreases rows - y,
    {
        let mut x: u32 = 0;
        while x < cols
            invariant
                y < rows <= 1024,
                x <= cols <= 1024,
                forall|k: int|
                0 <= k < blocks(aligned_width as int, b64_size as int) * blocks(
                    aligned_height as int,
                    b64_size as int,
                ) ==> call_requires(
                    *sad,
                    #[trigger] block_pair(
                        aligned_width as int,
                        aligned_height as int,
                        b64_size as int,
                        filt_stride,
                        unfilt_stride,
                        k,
                    ),
                ),
                64 <= b64_size <= 0xffff,
                0 < aligned_width <= 0xffff,
                0 < aligned_height <= 0xffff,
                64 * (cols - 1) < aligned_width,
                64 * (rows - 1) < aligned_height,
                cols == blocks(aligned_width as int, b64_size as int),
                rows == blocks(aligned_height as int, b64_size as int),
                aligned_height * filt_stride + aligned_width <= usize::MAX,
                aligned_height * unfilt_stride + aligned_width <= usize::MAX,
                ds.len() == y * cols + x,
            are_distances(
                *sad,
                aligned_width as int,
                aligned_height as int,
                b64_size as int,
                filt_stride,
                unfilt_stride,
                ds,
            ),
            dist == total(terms_of(ds), y * cols + x) % 0x1_0000_0000,
            decreases cols - x,
        {
            let org_x: u32 = x * 64;
            let org_y: u32 = y * 64;
            proof {
                lemma_raster_index(y as int, x as int, cols as int);
                lemma_mul_inequality(org_y as int, aligned_height as int, filt_stride as int);
                lemma_mul_inequality(org_y as int, aligned_height as int, unfilt_stride as int);
                lemma_mul_nonnegative(org_y as int, filt_stride as int);
                lemma_mul_nonnegative(org_y as int, unfilt_stride as int);
            }
            let filt_offset: usize = org_y as usize * filt_stride + org_x as usize;
            let unfilt_offset: usize = org_y as usize * unfilt_stride + org_x as usize;
            let room_x: u32 = aligned_width - org_x;
            let room_y: u32 = aligned_height - org_y;
            let w: u32 = if b64_size <= room_x {
                b64_size
            } else {
                room_x
            };
            let h: u32 = if b64_size <= room_y {
                b64_size
            } else {
                room_y
            };
            let ghost pair = block_pair(
                aligned_width as int,
                aligned_height as int,
                b64_size as int,
                filt_stride,
                unfilt_stride,
                y * cols + x,
            );
            proof {
                lemma_raster_bounds(y as int, x as int, cols as int, rows as int);
                vstd::arithmetic::mul::lemma_mul_is_commutative(cols as int, rows as int);
                assert(pair == (filt_offset, filt_stride, unfilt_offset, unfilt_stride, w, h));
            }
            let d: u64 = sad(filt_offset, filt_stride, unfilt_offset, unfilt_stride, w, h);
            proof {
                assert(call_ensures(*sad, pair, d));
                lemma_terms_grow(ds, d, y * cols + x);
                ds = ds.push(d);
            }
            dist = low_u32(dist as u64 + low_u32(d) as u64);
            x = x + 1;
        }
        proof {
            vstd::arithmetic::mul::lemma_mul_is_distributive_add_other_way(cols as int, y as int, 1);
        }
        y = y + 1;
    }
    proof {
        lemma_mul_is_commutative(rows as int, cols as int);
        vstd::arithmetic::mul::lemma_mul_upper_bound(cols as int, 1024, rows as int, 1024);
        lemma_mul_inequality(1, cols as int, rows as int);
    }
    dist / (cols * rows)
}

pub proof fn lemma_blocks(side: int, b: int)
    requires
        0 < side <= 0xffff,
        64 <= b,
    ensures
        1 <= blocks(side, b) <= 1024,
        64 * (blocks(side, b) - 1) < side,
{
    let q = blocks(side, b);
    let x = side + b - 1;
    vstd::arithmetic::div_mod::lemma_fundamental_div_mod(x, b);
    lemma_mul_is_commutative(q, b);
    assert(q * b <= x < q * b + b);
    if q < 1 {
        lemma_mul_inequality(q, 0, b);
    }
    assert((q - 1) * b == q * b - b) by {
        vstd::arithmetic::mul::lemma_mul_is_distributive_sub_other_way(b, q, 1);
    }
    lemma_mul_inequality(64, b, q - 1);
    lemma_mul_is_commutative(q - 1, b);
}

} // verus!
