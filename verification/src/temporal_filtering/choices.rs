//! What the search of the temporal filter settles on: no step it could have
//! taken is better, and blocks are split where their parts are closer.

use vstd::prelude::*;

use crate::arith::{abs_int, wrap_i32};
use crate::temporal_filtering::blocks::{
    chosen16, error16, error32, error8, split_decided, splits16, splits32, unsearched, whole_block_deviation,
    TfSplitCtx,
};
use crate::temporal_filtering::subpel::{
    level, level_walk, refined, step_params, tried, Best, Scores, TfSearchCtrls, TfSubpelSearchParams,
};

verus! {

/// The errors of a 32x32 block and its parts are small enough for all sums
/// to stay within 31 bits.
pub open spec fn errors_are_moderate(c: TfSplitCtx) -> bool {
    &&& c.idx_32x32 < 4
    &&& c.tf_32x32_block_error[c.idx_32x32 as int] < 0x800_0000
    &&& forall|k: int| 0 <= k < 16 ==> #[trigger] c.tf_16x16_block_error[k] < 0x100_0000
    &&& forall|k: int| 0 <= k < 64 ==> #[trigger] c.tf_8x8_block_error[k] < 0x40_0000
}

/// Error of 16x16 block `i` of a 32x32 block once it may be split.
pub open spec fn error_left(c: TfSplitCtx, i: int) -> int {
    let whole = c.tf_16x16_block_error[c.idx_32x32 * 4 + i] as int;
    let k = c.idx_32x32 * 16 + 4 * i;
    let parts = c.tf_8x8_block_error[k] + c.tf_8x8_block_error[k + 1] + c.tf_8x8_block_error[k + 2]
        + c.tf_8x8_block_error[k + 3];
    if c.enable_8x8_pred && whole >= 2 * parts {
        parts
    } else {
        whole
    }
}

/// A 16x16 block is split into 8x8 blocks exactly where those are allowed and
/// its error is at least twice theirs together; it then counts with their
/// error. A 32x32 block is split exactly where 14/16 of its error is no less
/// than what its quarters are left with.
pub proof fn blocks_are_split_where_parts_are_closer(c: TfSplitCtx, r: TfSplitCtx, i: int)
    requires
        split_decided(c, r),
        errors_are_moderate(c),
        0 <= i < 4,
    ensures
        ({
            let idx = c.idx_32x32 as int;
            let whole = c.tf_16x16_block_error[idx * 4 + i] as int;
            let k = idx * 16 + 4 * i;
            let parts = c.tf_8x8_block_error[k] + c.tf_8x8_block_error[k + 1] + c.tf_8x8_block_error[k + 2]
                + c.tf_8x8_block_error[k + 3];
            &&& r.tf_16x16_block_split_flag[idx][i] == if c.enable_8x8_pred && whole >= 2 * parts {
                1int
            } else {
                0
            }
            &&& r.tf_16x16_block_error[idx * 4 + i] == error_left(c, i)
            &&& r.tf_32x32_block_split_flag[idx] == if 14 * c.tf_32x32_block_error[idx] >= 16 * (error_left(c, 0)
                + error_left(c, 1) + error_left(c, 2) + error_left(c, 3)) {
                1int
            } else {
                0
            }
        }),
{
    let idx = c.idx_32x32 as int;
    assert((idx * 4 + i) / 4 == idx && (idx * 4 + i) % 4 == i);
    lemma_quarter_left(c, 0);
    lemma_quarter_left(c, 1);
    lemma_quarter_left(c, 2);
    lemma_quarter_left(c, 3);
    lemma_quarter_left(c, i);
    let sum = error_left(c, 0) + error_left(c, 1) + error_left(c, 2) + error_left(c, 3);
    let e = c.tf_32x32_block_error[idx] as int;
    lemma_no_wrap(e);
    lemma_no_wrap(14 * e);
    lemma_no_wrap(sum);
    lemma_no_wrap(16 * sum);
    assert(error32(c) == e);
    assert(splits32(c) == (14 * e >= 16 * sum));
    assert(!unsearched(c));
}

proof fn lemma_no_wrap(x: int)
    requires
        0 <= x < 0x8000_0000,
    ensures
        wrap_i32(x) == x,
{
}

proof fn lemma_quarter_left(c: TfSplitCtx, j: int)
    requires
        errors_are_moderate(c),
        0 <= j < 4,
    ensures
        ({
            let k = c.idx_32x32 * 16 + 4 * j;
            let parts = c.tf_8x8_block_error[k] + c.tf_8x8_block_error[k + 1] + c.tf_8x8_block_error[k + 2]
                + c.tf_8x8_block_error[k + 3];
            &&& splits16(c, j) == (c.enable_8x8_pred && c.tf_16x16_block_error[c.idx_32x32 * 4 + j] >= 2 * parts)
            &&& error8(c, j) == parts
            &&& chosen16(c, j) == error_left(c, j)
            &&& 0 <= error_left(c, j) < 0x100_0000
        }),
{
    let k = c.idx_32x32 * 16 + 4 * j;
    let parts = c.tf_8x8_block_error[k] + c.tf_8x8_block_error[k + 1] + c.tf_8x8_block_error[k + 2]
        + c.tf_8x8_block_error[k + 3];
    let whole = c.tf_16x16_block_error[c.idx_32x32 * 4 + j] as int;
    assert(c.tf_8x8_block_error[k] < 0x40_0000);
    assert(c.tf_8x8_block_error[k + 1] < 0x40_0000);
    assert(c.tf_8x8_block_error[k + 2] < 0x40_0000);
    assert(c.tf_8x8_block_error[k + 3] < 0x40_0000);
    assert(whole < 0x100_0000);
    lemma_no_wrap(parts);
    lemma_no_wrap(whole);
    lemma_no_wrap(16 * parts);
    lemma_no_wrap(8 * whole);
    assert(error16(c, j) == whole);
    assert(error8(c, j) == parts);
}

/// How much worse a block does as a whole is counted in percent of its
/// quarters' error: `p` percent or less exactly where its error is at most
/// `100 + p` parts in a hundred of theirs, and not above `p`.
pub proof fn deviation_is_a_percentage(whole: int, parts: int, p: int)
    requires
        1 <= parts <= whole,
        0 <= p,
    ensures
        whole_block_deviation(whole, parts) <= p <==> 100 * whole < (101 + p) * parts,
{
    let d = whole - parts;
    vstd::arithmetic::div_mod::lemma_fundamental_div_mod(100 * d, parts);
    vstd::arithmetic::div_mod::lemma_mod_bound(100 * d, parts);
    let q = (100 * d) / parts;
    let r = (100 * d) % parts;
    assert(whole_block_deviation(whole, parts) == q);
    assert((101 + p) * parts == 101 * parts + p * parts) by (nonlinear_arith);
    if q <= p {
        vstd::arithmetic::mul::lemma_mul_inequality(q, p, parts);
        assert(parts * q == q * parts) by (nonlinear_arith);
    } else {
        vstd::arithmetic::mul::lemma_mul_inequality(p + 1, q, parts);
        assert(parts * q == q * parts) by (nonlinear_arith);
        assert((p + 1) * parts == p * parts + parts) by (nonlinear_arith);
    }
}

/// The distortion is low enough to end the search.
pub open spec fn is_enough(p: TfSubpelSearchParams, th: u32, dist: int) -> bool {
    dist == 0 || (th != 0 && dist < (p.bsize * p.bsize) * th * (if p.is_highbd {
        2int
    } else {
        1
    }))
}

/// Place `k` of the nine around a displacement is allowed: from mode two on
/// there are no diagonal steps.
pub open spec fn is_allowed(mode: u8, k: int) -> bool {
    k != 4 && (mode < 2 || k / 3 == 1 || k % 3 == 1)
}

/// No displacement around `from` at a distance of `step` is better than `to`,
/// unless the search had ended; and `to` is `from` or one of them, where it is
/// strictly better.
pub open spec fn best_around(
    p: TfSubpelSearchParams,
    mode: u8,
    step: int,
    th: u32,
    from: Best,
    to: Best,
    score: Scores,
) -> bool {
    if mode == 0 {
        to == from
    } else {
        &&& forall|k: int|
            0 <= k < 9 && is_allowed(mode, k) ==> is_enough(p, th, to.dist as int) || to.dist <= #[trigger] place_score(
                from,
                step,
                score,
                k,
            )
        &&& to == from || exists|k: int|
            0 <= k < 9 && is_allowed(mode, k) && to.x == (from.x + (k / 3 - 1) * step) as i16 && to.y == (from.y + (k % 3
                - 1) * step) as i16 && to.dist == #[trigger] place_score(from, step, score, k) && to.dist < from.dist
    }
}

/// Distortion of place `k` around a displacement.
pub open spec fn place_score(from: Best, step: int, score: Scores, k: int) -> int {
    (score.of)((from.x + (k / 3 - 1) * step) as i16, (from.y + (k % 3 - 1) * step) as i16, 0) as int
}

/// The same of the first `n` places.
spec fn best_of_first(
    p: TfSubpelSearchParams,
    mode: u8,
    step: int,
    th: u32,
    from: Best,
    to: Best,
    score: Scores,
    n: int,
) -> bool {
    &&& forall|k: int|
        0 <= k < n && is_allowed(mode, k) ==> is_enough(p, th, to.dist as int) || to.dist <= #[trigger] place_score(
            from,
            step,
            score,
            k,
        )
    &&& to == from || exists|k: int|
        0 <= k < n && is_allowed(mode, k) && to.x == (from.x + (k / 3 - 1) * step) as i16 && to.y == (from.y + (k % 3
            - 1) * step) as i16 && to.dist == #[trigger] place_score(from, step, score, k) && to.dist < from.dist
    &&& to.dist <= from.dist
}

proof fn lemma_first_places(
    p: TfSubpelSearchParams,
    mode: u8,
    step: int,
    th: u32,
    from: Best,
    score: Scores,
    n: int,
)
    requires
        0 <= n <= 9,
        step == 1 || step == 2 || step == 4,
        -32764 <= from.x <= 32763,
        -32764 <= from.y <= 32763,
    ensures
        best_of_first(p, mode, step, th, from, level_walk(p, mode, step, th, from, score, n), score, n),
    decreases n,
{
    if n > 0 {
        lemma_first_places(p, mode, step, th, from, score, n - 1);
        let k = n - 1;
        let before = level_walk(p, mode, step, th, from, score, k);
        let after = level_walk(p, mode, step, th, from, score, n);
        if k != 4 {
            let q = step_params(p, mode, step, from, k);
            assert(k / 3 - 1 == -1 || k / 3 - 1 == 0 || k / 3 - 1 == 1);
            assert(k % 3 - 1 == -1 || k % 3 - 1 == 0 || k % 3 - 1 == 1);
            let (dx, dy) = ((k / 3 - 1) * step, (k % 3 - 1) * step);
            assert(-4 <= dx <= 4 && -4 <= dy <= 4) by (nonlinear_arith)
                requires
                    dx == (k / 3 - 1) * step,
                    dy == (k % 3 - 1) * step,
                    -1 <= k / 3 - 1 <= 1,
                    -1 <= k % 3 - 1 <= 1,
                    1 <= step <= 4,
            ;
            assert(dx == 0 <==> k / 3 == 1) by (nonlinear_arith)
                requires
                    dx == (k / 3 - 1) * step,
                    step >= 1,
            ;
            assert(dy == 0 <==> k % 3 == 1) by (nonlinear_arith)
                requires
                    dy == (k % 3 - 1) * step,
                    step >= 1,
            ;
            assert(q.xd == dx && q.yd == dy);
            assert(after == tried(q, th, before, score));
            assert(after.dist <= before.dist);
            if after != before {
                assert(is_allowed(mode, k));
                assert(after.dist == place_score(from, step, score, k));
            }
        }
        assert forall|j: int| 0 <= j < n && is_allowed(mode, j) implies is_enough(p, th, after.dist as int) || after.dist
            <= #[trigger] place_score(from, step, score, j) by {
            if j < k {
                assert(is_enough(p, th, before.dist as int) || before.dist <= place_score(from, step, score, j));
            }
        }
        if after == before && after != from {
            let j = choose|j: int|
                0 <= j < k && is_allowed(mode, j) && before.x == (from.x + (j / 3 - 1) * step) as i16 && before.y == (
                from.y + (j % 3 - 1) * step) as i16 && before.dist == #[trigger] place_score(from, step, score, j)
                    && before.dist < from.dist;
            assert(0 <= j < n && after.dist == place_score(from, step, score, j));
        }
    }
}

/// A level of refinement settles on the best of the places around.
pub proof fn levels_settle_on_the_best(
    p: TfSubpelSearchParams,
    mode: u8,
    step: int,
    th: u32,
    from: Best,
    score: Scores,
)
    requires
        step == 1 || step == 2 || step == 4,
        -32764 <= from.x <= 32763,
        -32764 <= from.y <= 32763,
    ensures
        best_around(p, mode, step, th, from, level(p, mode, step, th, from, score), score),
        abs_int(level(p, mode, step, th, from, score).x - from.x) <= step,
        abs_int(level(p, mode, step, th, from, score).y - from.y) <= step,
{
    let to = level(p, mode, step, th, from, score);
    lemma_first_places(p, mode, step, th, from, score, 9);
    if mode != 0 && to != from {
        let k = choose|k: int|
            0 <= k < 9 && is_allowed(mode, k) && to.x == (from.x + (k / 3 - 1) * step) as i16 && to.y == (from.y + (k % 3
                - 1) * step) as i16 && to.dist == #[trigger] place_score(from, step, score, k) && to.dist < from.dist;
        let (dx, dy) = ((k / 3 - 1) * step, (k % 3 - 1) * step);
        assert(-step <= dx <= step && -step <= dy <= step) by (nonlinear_arith)
            requires
                dx == (k / 3 - 1) * step,
                dy == (k % 3 - 1) * step,
                0 <= k < 9,
                1 <= step <= 4,
        ;
        assert(dist_to(from.x as int, dx, step) && dist_to(from.y as int, dy, step));
    }
}

spec fn dist_to(x: int, d: int, step: int) -> bool {
    i16::MIN <= x + d <= i16::MAX
}

/// A refinement measures the displacement it starts from, and goes on in half,
/// quarter and eighth samples, in that order: each time, as far as its mode
/// asks for it, to the best place around, unless the distortion is already low
/// enough. Returned are the displacements in between.
pub proof fn refinement_settles_on_the_best(
    p: TfSubpelSearchParams,
    c: TfSearchCtrls,
    th: u32,
    best: Best,
    score: Scores,
) -> (stops: (Best, Best, Best))
    requires
        -32757 <= best.x <= 32756,
        -32757 <= best.y <= 32756,
    ensures
        ({
            let (start, half, quarter) = stops;
            let measured = (score.of)(best.x, best.y, p.subsampling_shift);
            &&& start.x == best.x && start.y == best.y
            &&& start.dist == if is_enough(p, th, best.dist as int) || measured >= best.dist {
                best.dist
            } else {
                measured
            }
            &&& best_around(p, c.half_pel_mode, 4, th, start, half, score)
            &&& best_around(p, c.quarter_pel_mode, 2, th, half, quarter, score)
            &&& best_around(p, c.eight_pel_mode, 1, th, quarter, refined(p, c, th, best, score), score)
        }),
{
    let start = tried(
        TfSubpelSearchParams { subpel_pel_mode: c.half_pel_mode, mv_x: best.x, mv_y: best.y, xd: 0, yd: 0, ..p },
        th,
        best,
        score,
    );
    let half = level(p, c.half_pel_mode, 4, th, start, score);
    let quarter = level(p, c.quarter_pel_mode, 2, th, half, score);
    levels_settle_on_the_best(p, c.half_pel_mode, 4, th, start, score);
    levels_settle_on_the_best(p, c.quarter_pel_mode, 2, th, half, score);
    levels_settle_on_the_best(p, c.eight_pel_mode, 1, th, quarter, score);
    (start, half, quarter)
}

} // verus!
