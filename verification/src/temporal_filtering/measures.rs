//! What the measures of the temporal filter mean: means are nearest, weights
//! fall with every kind of error, and noise does not depend on brightness.

use vstd::arithmetic::div_mod::{
    lemma_div_is_ordered, lemma_div_is_ordered_by_denominator, lemma_div_pos_is_pos, lemma_fundamental_div_mod,
    lemma_mod_bound,
};
use vstd::arithmetic::mul::{lemma_mul_inequality, lemma_mul_nonnegative};
use vstd::prelude::*;

use crate::arith::{abs_int, max_int, min_int, total};
use crate::temporal_filtering::kernels::{lemma_table_falls, prediction_weight, weighted_mean};
use crate::temporal_filtering::noise::{
    gradient, inner_col, inner_row, laplacian, noise_of, noise_terms, px, smooth, smooth_terms,
};

verus! {

/// A mean is the nearest integer to a weighted sum over its weight: off by no
/// more than half the weight. It is no less than what every part is at least,
/// and no more than what every part is at most.
pub proof fn means_are_nearest(sum: int, weight: int, lo: int, hi: int)
    requires
        0 < weight,
        0 <= lo,
        lo * weight <= sum <= hi * weight,
    ensures
        -weight <= 2 * (weighted_mean(sum, weight) * weight - sum) <= weight,
        lo <= weighted_mean(sum, weight) <= hi,
{
    lemma_mul_nonnegative(lo, weight);
    let t = sum + weight / 2;
    let m = t / weight;
    lemma_fundamental_div_mod(t, weight);
    lemma_mod_bound(t, weight);
    assert(weight * m == m * weight) by (nonlinear_arith);
    if m < lo {
        lemma_mul_inequality(m + 1, lo, weight);
        assert((m + 1) * weight == m * weight + weight) by (nonlinear_arith);
    }
    if m > hi {
        lemma_mul_inequality(hi + 1, m, weight);
        assert((hi + 1) * weight == hi * weight + weight) by (nonlinear_arith);
    }
}

proof fn lemma_scaled(e1: int, e2: int, m1: int, m2: int, d1: int, d2: int)
    requires
        0 <= e1 <= e2,
        0 <= m1 <= m2,
        1 <= d2 <= d1,
    ensures
        0 <= (e1 * m1) / d1 <= (e2 * m2) / d2,
{
    lemma_mul_inequality(e1, e2, m1);
    assert(e2 * m1 <= e2 * m2) by (nonlinear_arith)
        requires
            0 <= e2,
            m1 <= m2,
    ;
    lemma_mul_nonnegative(e1, m1);
    lemma_mul_nonnegative(e2, m2);
    lemma_div_is_ordered(e1 * m1, e2 * m2, d1);
    lemma_div_pos_is_pos(e1 * m1, d1);
    lemma_div_is_ordered_by_denominator(e2 * m2, d2, d1);
}

/// A prediction never weighs more for a larger error of its samples or its
/// block, a longer displacement, or a smaller decay factor.
pub proof fn weight_falls_with_everything(
    window1: int,
    window2: int,
    block1: int,
    block2: int,
    motion1: int,
    motion2: int,
    decay1: int,
    decay2: int,
)
    requires
        0 <= window1 <= window2,
        0 <= block1 <= block2,
        0 <= motion1 <= motion2,
        0 <= decay2 <= decay1,
    ensures
        prediction_weight(window2, block2, motion2, decay2) <= prediction_weight(window1, block1, motion1, decay1),
{
    let e1 = ((5 * window1 + block1) / 6) / 8;
    let e2 = ((5 * window2 + block2) / 6) / 8;
    let (m1, m2) = (motion1 / 8, motion2 / 8);
    let (d1, d2) = (max_int(decay1 / 1024, 1), max_int(decay2 / 1024, 1));
    lemma_scaled(e1, e2, m1, m2, d1, d2);
    lemma_table_falls(min_int((e1 * m1) / d1, 112), min_int((e2 * m2) / d2, 112));
}

/// Every kind of error tells: far enough off, by its samples or by its block
/// alone, a prediction that moved and whose decay factor is moderate weighs
/// nothing, and one without any error weighs as much as the frame.
pub proof fn large_errors_weigh_nothing(window: int, block: int, motion: int, decay: int)
    requires
        0 <= window,
        0 <= block,
        256 <= motion,
        0 <= decay < 0x40_0000,
    ensures
        prediction_weight(0, 0, motion, decay) == 1000,
        window >= 0x4_0000 ==> prediction_weight(window, block, motion, decay) == 0,
        block >= 0x10_0000 ==> prediction_weight(window, block, motion, decay) == 0,
{
    let m = motion / 8;
    let d = max_int(decay / 1024, 1);
    assert(32 <= m && 1 <= d <= 0x1000);
    assert((0int / 8) * m == 0);
    vstd::arithmetic::div_mod::lemma_div_basics(d);
    let e = ((5 * window + block) / 6) / 8;
    if window >= 0x4_0000 || block >= 0x10_0000 {
        assert(e >= 15000);
        lemma_scaled(15000, e, 32, m, 0x1000, d);
        lemma_far(d, e, m);
    }
}

proof fn lemma_far(d: int, e: int, m: int)
    requires
        1 <= d <= 0x1000,
        e >= 15000,
        m >= 32,
    ensures
        (e * m) / d >= 112,
{
    lemma_scaled(15000, e, 32, m, 0x1000, d);
    assert(15000int * 32 / 0x1000 == 117);
}

/// The same samples, each brighter by `by`.
pub open spec fn brightened(a: Seq<u16>, b: Seq<u16>, by: int) -> bool {
    a.len() == b.len() && forall|i: int| 0 <= i < a.len() ==> #[trigger] b[i] == a[i] + by
}

/// The three rows around an inner sample lie in the plane.
spec fn has_neighbours(s: Seq<u16>, n: int, i: int, j: int) -> bool {
    forall|r: int, c: int| i - 1 <= r <= i + 1 && j - 1 <= c <= j + 1 ==> 0 <= #[trigger] (r * n + c) < s.len()
}

proof fn lemma_same_detail(a: Seq<u16>, b: Seq<u16>, by: int, n: int, i: int, j: int)
    requires
        brightened(a, b, by),
        has_neighbours(a, n, i, j),
    ensures
        gradient(a, n, i, j) == gradient(b, n, i, j),
        laplacian(a, n, i, j) == laplacian(b, n, i, j),
{
    assert forall|r: int, c: int| i - 1 <= r <= i + 1 && j - 1 <= c <= j + 1 implies #[trigger] px(b, n, r, c) == px(
        a,
        n,
        r,
        c,
    ) + by by {
        assert(0 <= r * n + c < a.len());
    }
    assert(px(b, n, i - 1, j - 1) == px(a, n, i - 1, j - 1) + by);
    assert(px(b, n, i - 1, j) == px(a, n, i - 1, j) + by);
    assert(px(b, n, i - 1, j + 1) == px(a, n, i - 1, j + 1) + by);
    assert(px(b, n, i, j - 1) == px(a, n, i, j - 1) + by);
    assert(px(b, n, i, j) == px(a, n, i, j) + by);
    assert(px(b, n, i, j + 1) == px(a, n, i, j + 1) + by);
    assert(px(b, n, i + 1, j - 1) == px(a, n, i + 1, j - 1) + by);
    assert(px(b, n, i + 1, j) == px(a, n, i + 1, j) + by);
    assert(px(b, n, i + 1, j + 1) == px(a, n, i + 1, j + 1) + by);
}

proof fn lemma_inner(s: Seq<u16>, n: int, width: int, height: int, k: int)
    requires
        3 <= width <= n,
        3 <= height,
        (height - 1) * n + width <= s.len(),
        0 <= k < (width - 2) * (height - 2),
    ensures
        has_neighbours(s, n, inner_row(width, k), inner_col(width, k)),
{
    let w = width - 2;
    lemma_fundamental_div_mod(k, w);
    lemma_mod_bound(k, w);
    lemma_div_pos_is_pos(k, w);
    let q = k / w;
    assert(q < height - 2) by (nonlinear_arith)
        requires
            k == w * q + k % w,
            0 <= k % w,
            k < w * (height - 2),
            w > 0,
    ;
    assert forall|r: int, c: int|
        inner_row(width, k) - 1 <= r <= inner_row(width, k) + 1 && inner_col(width, k) - 1 <= c <= inner_col(width, k)
            + 1 implies 0 <= #[trigger] (r * n + c) < s.len() by {
        lemma_mul_inequality(r, height - 1, n);
        lemma_mul_nonnegative(r, n);
    }
}

proof fn lemma_same_total(f: spec_fn(int) -> int, g: spec_fn(int) -> int, n: int)
    requires
        forall|k: int| 0 <= k < n ==> #[trigger] f(k) == g(k),
    ensures
        total(f, n) == total(g, n),
    decreases n,
{
    if n > 0 {
        lemma_same_total(f, g, n - 1);
        assert(f(n - 1) == g(n - 1));
    }
}

/// A plane that is brighter everywhere by the same amount is as noisy.
pub proof fn noise_ignores_brightness(
    a: Seq<u16>,
    b: Seq<u16>,
    by: int,
    n: int,
    width: int,
    height: int,
    shift: nat,
)
    requires
        brightened(a, b, by),
        width <= n,
        width >= 3 && height >= 3 ==> (height - 1) * n + width <= a.len(),
    ensures
        noise_of(a, n, width, height, shift) == noise_of(b, n, width, height, shift),
{
    if width >= 3 && height >= 3 {
        let inner = (width - 2) * (height - 2);
        assert forall|k: int| 0 <= k < inner implies #[trigger] smooth_terms(a, n, width, shift)(k) == smooth_terms(
            b,
            n,
            width,
            shift,
        )(k) by {
            lemma_inner(a, n, width, height, k);
            lemma_same_detail(a, b, by, n, inner_row(width, k), inner_col(width, k));
        }
        assert forall|k: int| 0 <= k < inner implies #[trigger] noise_terms(a, n, width, shift)(k) == noise_terms(
            b,
            n,
            width,
            shift,
        )(k) by {
            lemma_inner(a, n, width, height, k);
            lemma_same_detail(a, b, by, n, inner_row(width, k), inner_col(width, k));
        }
        lemma_same_total(smooth_terms(a, n, width, shift), smooth_terms(b, n, width, shift), inner);
        lemma_same_total(noise_terms(a, n, width, shift), noise_terms(b, n, width, shift), inner);
    }
}

/// On an even slope, of `down` a row and `across` a column, nothing is noise,
/// and the gradient is eight times the slope.
pub proof fn slopes_are_not_noise(s: Seq<u16>, n: int, i: int, j: int, base: int, down: int, across: int)
    requires
        forall|r: int, c: int|
            i - 1 <= r <= i + 1 && j - 1 <= c <= j + 1 ==> #[trigger] px(s, n, r, c) == base + down * (r - i) + across
                * (c - j),
    ensures
        laplacian(s, n, i, j) == 0,
        gradient(s, n, i, j) == 8 * (abs_int(down) + abs_int(across)),
{
    assert(down * (i - 1 - i) == -down && down * (i - i) == 0 && down * (i + 1 - i) == down) by (nonlinear_arith);
    assert(across * (j - 1 - j) == -across && across * (j - j) == 0 && across * (j + 1 - j) == across)
        by (nonlinear_arith);
    assert(px(s, n, i - 1, j - 1) == base - down - across);
    assert(px(s, n, i - 1, j) == base - down);
    assert(px(s, n, i - 1, j + 1) == base - down + across);
    assert(px(s, n, i, j - 1) == base - across);
    assert(px(s, n, i, j) == base);
    assert(px(s, n, i, j + 1) == base + across);
    assert(px(s, n, i + 1, j - 1) == base + down - across);
    assert(px(s, n, i + 1, j) == base + down);
    assert(px(s, n, i + 1, j + 1) == base + down + across);
}

/// A single sample that sticks out is noise: four times as far as it sticks
/// out.
pub proof fn spikes_are_noise(s: Seq<u16>, n: int, i: int, j: int, base: int, spike: int)
    requires
        forall|r: int, c: int|
            i - 1 <= r <= i + 1 && j - 1 <= c <= j + 1 && (r, c) != (i, j) ==> #[trigger] px(s, n, r, c) == base,
        px(s, n, i, j) == base + spike,
    ensures
        laplacian(s, n, i, j) == 4 * spike,
        gradient(s, n, i, j) == 0,
{
    assert(px(s, n, i - 1, j - 1) == base);
    assert(px(s, n, i - 1, j) == base);
    assert(px(s, n, i - 1, j + 1) == base);
    assert(px(s, n, i, j - 1) == base);
    assert(px(s, n, i, j + 1) == base);
    assert(px(s, n, i + 1, j - 1) == base);
    assert(px(s, n, i + 1, j) == base);
    assert(px(s, n, i + 1, j + 1) == base);
}

/// A sample counts as smooth where its gradient is below fifty, in the scale of
/// eight-bit samples.
pub proof fn edges_have_gradients_from_fifty(s: Seq<u16>, n: int, i: int, j: int)
    ensures
        smooth(s, n, 0, i, j) <==> gradient(s, n, i, j) < 50,
{
}

/// Every sample that has all its neighbours is visited once, row by row.
pub proof fn inner_samples_are_visited_in_rows(width: int, i: int, j: int)
    requires
        1 <= i,
        1 <= j < width - 1,
    ensures
        inner_row(width, (i - 1) * (width - 2) + (j - 1)) == i,
        inner_col(width, (i - 1) * (width - 2) + (j - 1)) == j,
{
    vstd::arithmetic::div_mod::lemma_fundamental_div_mod_converse(
        (i - 1) * (width - 2) + (j - 1),
        width - 2,
        i - 1,
        j - 1,
    );
}

/// Noise is the mean magnitude of the smooth samples times the root of half of
/// pi over six, with 16 fraction bits; planes of fewer than sixteen smooth
/// samples have none.
pub proof fn noise_is_a_scaled_mean(s: Seq<u16>, n: int, width: int, height: int, shift: nat)
    requires
        3 <= width,
        3 <= height,
    ensures
        ({
            let inner = (width - 2) * (height - 2);
            let count = total(smooth_terms(s, n, width, shift), inner);
            let sum = total(noise_terms(s, n, width, shift), inner);
            let r = noise_of(s, n, width, height, shift);
            &&& count < 16 ==> r == -65536
            &&& count >= 16 && 0 <= sum && 82137 * sum < 6 * count * 0x7fff_ffff ==> 6 * count * r <= 82137 * sum < 6
                * count * r + 6 * count
        }),
{
    let inner = (width - 2) * (height - 2);
    let count = total(smooth_terms(s, n, width, shift), inner);
    let sum = total(noise_terms(s, n, width, shift), inner);
    if count >= 16 && 0 <= sum && 82137 * sum < 6 * count * 0x7fff_ffff {
        let d = 6 * count;
        let q = (sum * 82137) / d;
        lemma_fundamental_div_mod(sum * 82137, d);
        lemma_mod_bound(sum * 82137, d);
        assert(0 <= q <= 0x7fff_ffff) by (nonlinear_arith)
            requires
                sum * 82137 == d * q + (sum * 82137) % d,
                0 <= (sum * 82137) % d < d,
                0 <= sum * 82137 < d * 0x7fff_ffff,
                d > 0,
        ;
    }
}

} // verus!
