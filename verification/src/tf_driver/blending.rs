//! What the filter makes of a picture: blended samples lie between what they
//! are blended from, close references take part, and strength tells.

use vstd::arithmetic::div_mod::{lemma_div_is_ordered_by_denominator, lemma_div_pos_is_pos};
use vstd::arithmetic::mul::lemma_mul_nonnegative;
use vstd::arithmetic::power2::{lemma_pow2_pos, lemma_pow2_strictly_increases, pow2};
use vstd::prelude::*;

use crate::arith::{max_int, total};
use crate::temporal_filtering::measures::means_are_nearest;
use crate::tf_driver::accumulate::{
    centre_at, lemma_sums_range, lemma_weight_range, mean_at, pels, sum_at, sum_terms, total_weight_at, weight_at,
    weight_terms, TfFilter, TfPrediction,
};
use crate::tf_driver::ladder::{is_whole, Refinery, TfLadderCtrls, TfMotion};
use crate::tf_driver::setup::{decay_factor, takes_part, taking_part, RaTfScs, TfCentre, TfMember, TfWindowStats};

verus! {

proof fn lemma_sum_bounds(
    f: TfFilter,
    src: [Vec<u8>; 3],
    preds: Seq<TfPrediction>,
    col: int,
    row: int,
    p: int,
    k: int,
    lo: int,
    hi: int,
    n: int,
)
    requires
        0 <= p < 3,
        0 <= k < pels(p),
        0 <= n <= preds.len(),
        lo <= centre_at(f, src, col, row, p, k) <= hi,
        forall|i: int| 0 <= i < preds.len() ==> lo <= (#[trigger] preds[i]).planes[p]@[k] <= hi,
    ensures
        ({
            let w = total_weight_at(f, src, preds, col, row, p, k, n);
            lo * w <= sum_at(f, src, preds, col, row, p, k, n) <= hi * w
        }),
    decreases n,
{
    if n > 0 {
        lemma_sum_bounds(f, src, preds, col, row, p, k, lo, hi, n - 1);
        lemma_weight_range(f, src, preds[n - 1], col, row, p, k);
        let w = weight_at(f, src, preds[n - 1], col, row, p, k);
        let v = preds[n - 1].planes[p]@[k] as int;
        let before = total_weight_at(f, src, preds, col, row, p, k, n - 1);
        assert(sum_terms(f, src, preds, col, row, p, k)(n - 1) == w * v);
        assert(weight_terms(f, src, preds, col, row, p, k)(n - 1) == w);
        assert(lo * w <= w * v <= hi * w) by (nonlinear_arith)
            requires
                lo <= v <= hi,
                0 <= w,
        ;
        assert(lo * (before + w) == lo * before + lo * w) by (nonlinear_arith);
        assert(hi * (before + w) == hi * before + hi * w) by (nonlinear_arith);
        let s = sum_terms(f, src, preds, col, row, p, k);
        let u = weight_terms(f, src, preds, col, row, p, k);
        assert(total(s, n) == total(s, n - 1) + s(n - 1));
        assert(total(u, n) == total(u, n - 1) + u(n - 1));
        assert(total_weight_at(f, src, preds, col, row, p, k, n) == before + w);
    } else {
        assert(total(sum_terms(f, src, preds, col, row, p, k), 0) == 0);
        assert(total(weight_terms(f, src, preds, col, row, p, k), 0) == 0);
        assert(total_weight_at(f, src, preds, col, row, p, k, 0) == 1000);
    }
}

/// A filtered sample lies between the smallest and the largest of the sample
/// itself and its predictions, and is the nearest to their weighted mean, in
/// which the sample itself has weight 1000.
pub proof fn blended_samples_stay_between(
    f: TfFilter,
    src: [Vec<u8>; 3],
    preds: Seq<TfPrediction>,
    col: int,
    row: int,
    p: int,
    k: int,
    lo: int,
    hi: int,
)
    requires
        0 <= p < 3,
        0 <= k < pels(p),
        0 <= lo <= centre_at(f, src, col, row, p, k) <= hi,
        forall|i: int| 0 <= i < preds.len() ==> lo <= (#[trigger] preds[i]).planes[p]@[k] <= hi,
    ensures
        ({
            let n = preds.len() as int;
            let m = mean_at(f, src, preds, col, row, p, k);
            let weight = 1000 + total(|i: int| weight_at(f, src, preds[i], col, row, p, k), n);
            let sum = 1000 * centre_at(f, src, col, row, p, k) + total(
                |i: int| weight_at(f, src, preds[i], col, row, p, k) * preds[i].planes[p]@[k],
                n,
            );
            &&& lo <= m <= hi
            &&& -weight <= 2 * (m * weight - sum) <= weight
        }),
{
    let n = preds.len() as int;
    lemma_sum_bounds(f, src, preds, col, row, p, k, lo, hi, n);
    lemma_sums_range(f, src, preds, col, row, p, k, n);
    means_are_nearest(
        sum_at(f, src, preds, col, row, p, k, n),
        total_weight_at(f, src, preds, col, row, p, k, n),
        lo,
        hi,
    );
}

/// A single prediction that weighs as much as the frame pulls a sample half
/// the way: to the middle of the two, rounded up.
pub proof fn equal_weights_meet_in_the_middle(
    f: TfFilter,
    src: [Vec<u8>; 3],
    pred: TfPrediction,
    col: int,
    row: int,
    p: int,
    k: int,
)
    requires
        0 <= p < 3,
        0 <= k < pels(p),
        weight_at(f, src, pred, col, row, p, k) == 1000,
    ensures
        mean_at(f, src, seq![pred], col, row, p, k) == (centre_at(f, src, col, row, p, k) + pred.planes[p]@[k] + 1) / 2,
{
    let preds = seq![pred];
    let (a, b) = (centre_at(f, src, col, row, p, k), pred.planes[p]@[k] as int);
    let s = sum_terms(f, src, preds, col, row, p, k);
    let w = weight_terms(f, src, preds, col, row, p, k);
    assert(s(0) == 1000 * b && w(0) == 1000);
    assert(total(s, 1) == total(s, 0) + s(0) && total(w, 1) == total(w, 0) + w(0));
    assert(sum_at(f, src, preds, col, row, p, k, 1) == 1000 * (a + b));
    assert(total_weight_at(f, src, preds, col, row, p, k, 1) == 2000);
}

/// A reference takes part unless it differs by more than one a sample and by
/// more than 20 percent over the average of the window, 40 percent where the
/// picture is no intra slice; with the same average brightness nothing else
/// counts.
pub proof fn close_references_take_part(m: TfMember, w: TfWindowStats)
    requires
        m.avg_luma == w.tf_avg_luma,
        w.regions >= 2,
    ensures
        ({
            let ahd = m.ahd_error_to_central as int;
            let avg = w.tf_avg_ahd_error as int;
            takes_part(m, w) <==> ahd <= w.aligned_width * w.aligned_height || (w.is_islice && 100 * ahd <= 120 * avg)
                || (!w.is_islice && 100 * ahd <= 140 * avg)
        }),
{
    assert(14 * w.regions / 16 >= 1);
    assert(m.avg_luma == w.tf_avg_luma);
    assert(!crate::tf_driver::setup::brightness_changed(
        crate::tf_driver::setup::region_view(m.regions),
        crate::tf_driver::setup::region_view(w.centre_regions),
        w.regions as int,
        true,
    ));
}

/// The references that take part are those of the slots that do, in order:
/// none is left out, and none comes twice.
pub proof fn all_close_references_take_part(slots: Seq<usize>, members: Seq<TfMember>, w: TfWindowStats, n: int)
    requires
        0 <= n <= slots.len(),
    ensures
        ({
            let r = taking_part(slots, members, w, n);
            &&& r.len() <= n
            &&& forall|i: int| 0 <= i < r.len() ==> takes_part(members[(#[trigger] r[i]) as int], w)
            &&& forall|j: int| 0 <= j < n && takes_part(members[(#[trigger] slots[j]) as int], w) ==> r.contains(slots[j])
            &&& forall|i: int| 0 <= i < r.len() ==> slots.take(n).contains(#[trigger] r[i])
        }),
    decreases n,
{
    if n > 0 {
        all_close_references_take_part(slots, members, w, n - 1);
        let before = taking_part(slots, members, w, n - 1);
        let r = taking_part(slots, members, w, n);
        assert forall|j: int| 0 <= j < n && takes_part(members[(#[trigger] slots[j]) as int], w) implies r.contains(
            slots[j],
        ) by {
            if j < n - 1 {
                let i = before.index_of(slots[j]);
                assert(r[i] == slots[j]);
            } else {
                assert(r.last() == slots[j]);
            }
        }
        assert forall|i: int| 0 <= i < r.len() implies slots.take(n).contains(#[trigger] r[i]) by {
            if i < before.len() {
                assert(slots.take(n - 1).contains(before[i]));
                let j = slots.take(n - 1).index_of(before[i]);
                assert(slots.take(n)[j] == r[i]);
            } else {
                assert(slots.take(n)[n - 1] == r[i]);
            }
        }
    }
}

/// The decay factor of luma, for a picture that is neither a key frame nor
/// sharpened and that filtering has not changed much: the square of 3/64 of
/// the noise, raised by 0.7, times the decay of the quantizer, halved as often
/// as the strength is short of fourteen. In 32 bits.
pub proof fn decay_follows_noise_and_quantizer(scs: RaTfScs, c: TfCentre, q: int)
    requires
        scs.enable_tf <= 1,
        !scs.vq_sharpness_tf,
        c.is_islice,
        0 <= c.noise_levels_log1p_fp16[0],
        0 <= q < 0x2000,
        scs.tf_strength <= 14,
    ensures
        ({
            let level = (3 * (45875 + c.noise_levels_log1p_fp16[0])) / 64;
            let by_quantizer: int = if q >= 128 {
                (q * q) / 32
            } else if q == 0 {
                1
            } else {
                4 * q
            };
            decay_factor(scs, c, false, true, q, 0) == ((level * level) * by_quantizer / (pow2(
                (14 - scs.tf_strength) as nat,
            ) as int)) % 0x1_0000_0000
        }),
{
    assert(0 <= 3 * (45875 + c.noise_levels_log1p_fp16[0]));
}

/// A stronger filter decays slower, a key frame of the weakest strength is not
/// filtered at all, and chroma that is not filtered has a factor of its own.
pub proof fn strength_tells(weak: RaTfScs, strong: RaTfScs, c: TfCentre, q: int)
    requires
        weak.enable_tf <= 1,
        !weak.vq_sharpness_tf,
        c.is_islice,
        0 <= c.noise_levels_log1p_fp16[0],
        0 <= q < 0x2000,
        weak.tf_strength <= strong.tf_strength <= 14,
        strong == (RaTfScs { tf_strength: strong.tf_strength, ..weak }),
        ({
            let level = (3 * (45875 + c.noise_levels_log1p_fp16[0])) / 64;
            (level * level) * (if q >= 128 {
                (q * q) / 32
            } else {
                max_int(4 * q, 1)
            }) < 0x1_0000_0000
        }),
    ensures
        decay_factor(weak, c, false, true, q, 0) <= decay_factor(strong, c, false, true, q, 0),
        weak.tf_strength == 0 && weak.kf_tf_strength is None ==> decay_factor(weak, c, true, true, q, 0) == 0,
        decay_factor(weak, c, false, false, q, 1) == 0x1_0000,
{
    decay_follows_noise_and_quantizer(weak, c, q);
    decay_follows_noise_and_quantizer(strong, c, q);
    let level = (3 * (45875 + c.noise_levels_log1p_fp16[0])) / 64;
    let by: int = if q >= 128 {
        (q * q) / 32
    } else if q == 0 {
        1
    } else {
        4 * q
    };
    let x = (level * level) * by;
    assert(0 <= by) by {
        lemma_mul_nonnegative(q, q);
    }
    lemma_mul_nonnegative(level, level);
    lemma_mul_nonnegative(level * level, by);
    let (a, b) = ((14 - weak.tf_strength) as nat, (14 - strong.tf_strength) as nat);
    lemma_pow2_pos(a);
    lemma_pow2_pos(b);
    if b < a {
        lemma_pow2_strictly_increases(b, a);
    }
    lemma_div_is_ordered_by_denominator(x, pow2(b) as int, pow2(a) as int);
    lemma_div_pos_is_pos(x, pow2(a) as int);
    lemma_div_pos_is_pos(x, pow2(b) as int);
    lemma_div_is_ordered_by_denominator(x, 1, pow2(b) as int);
    vstd::arithmetic::div_mod::lemma_div_basics(x);
}

/// A block is predicted as a whole where its quarters gain little: always
/// where 255 asks for it, and otherwise where 14/16 of its error, refined, is
/// less than theirs together and the error is below 2^18.
pub proof fn whole_blocks_are_nearly_as_good(m: TfMotion, c: TfLadderCtrls, refine: Refinery)
    ensures
        c.use_pred_64x64_only_th == 255 ==> is_whole(m, c, refine),
        c.use_pred_64x64_only_th == 0 ==> (is_whole(m, c, refine) <==> {
            let whole = (refine.best)(64, 0, 0, m.mv_64x64_x, m.mv_64x64_y).dist as int;
            let parts = (refine.best)(32, 0, 0, m.mv_32x32_x[0], m.mv_32x32_y[0]).dist + (refine.best)(
                32,
                1,
                0,
                m.mv_32x32_x[1],
                m.mv_32x32_y[1],
            ).dist + (refine.best)(32, 0, 1, m.mv_32x32_x[2], m.mv_32x32_y[2]).dist + (refine.best)(
                32,
                1,
                1,
                m.mv_32x32_x[3],
                m.mv_32x32_y[3],
            ).dist;
            14 * whole < 16 * parts && whole < 0x4_0000
        }),
{
}

} // verus!
