//! The filtered frame: every block replaced by the weighted mean of itself and
//! its predictions.

use vstd::arithmetic::div_mod::lemma_fundamental_div_mod;
use vstd::arithmetic::div_mod::lemma_fundamental_div_mod_converse;
use vstd::arithmetic::mul::{lemma_mul_inequality, lemma_mul_is_distributive_add_other_way, lemma_mul_nonnegative};
use vstd::prelude::*;
use vstd::slice::slice_subrange;

use crate::raster::pos;
use crate::temporal_filtering::blocks::{tf_block_grid, TfBlockGrid};
use crate::temporal_filtering::kernels::{
    apply_filtering_central, averaged, can_average, chroma, get_final_filtered_pixels, in_rect, seeded, weighted_mean,
};
use crate::tf_driver::accumulate::{
    active, add_prediction, block_origin, block_start, holds_block, lemma_quad_inside, lemma_sums_range, mean_at,
    pels, pred_fits, quad_at, sample_is, side, sums_are, TfFilter, TfPrediction,
};
use crate::tf_driver::ladder::TfSearchState;
use crate::tf_driver::setup::{
    in_strip, strip_start, strips_part_the_blocks, tf_segment_block_rect, RaTfScs,
};

verus! {

/// Where the planes of a block start.
fn block_starts(f: &TfFilter, src: &[Vec<u8>; 3], col: usize, row: usize) -> (r: (usize, usize))
    requires
        holds_block(*f, *src, col as int, row as int),
    ensures
        r.0 == block_start(0, col as int, row as int, f.stride[0] as int),
        r.0 <= src[0]@.len(),
        f.tf_chroma ==> r.1 == block_start(1, col as int, row as int, f.stride[1] as int) && r.1 == block_start(
            2,
            col as int,
            row as int,
            f.stride[2] as int,
        ) && r.1 <= src[1]@.len() && r.1 <= src[2]@.len(),
        !f.tf_chroma ==> r.1 == 0,
{
    let len0: usize = src[0].len();
    let len1: usize = src[1].len();
    proof {
        assert(len0 == src[0]@.len() && len1 == src[1]@.len());
        lemma_quad_inside(*f, *src, col as int, row as int, 0, 0);
        if f.tf_chroma {
            lemma_quad_inside(*f, *src, col as int, row as int, 1, 0);
            lemma_quad_inside(*f, *src, col as int, row as int, 2, 0);
        }
    }
    let y: usize = block_origin(row, col, 64, f.stride[0]);
    let c: usize = if f.tf_chroma {
        block_origin(row, col, 32, f.stride[1])
    } else {
        0
    };
    (y, c)
}

proof fn lemma_seeded(
    f: TfFilter,
    src: [Vec<u8>; 3],
    preds: Seq<TfPrediction>,
    col: int,
    row: int,
    p: int,
    zero: Seq<u32>,
    accum: Seq<u32>,
    zero_count: Seq<u16>,
    count: Seq<u16>,
)
    requires
        0 <= p < 3,
        active(f, p),
        holds_block(f, src, col, row),
        zero.len() == 4096,
        zero_count.len() == 4096,
        seeded(
            src[p]@.subrange(block_start(p, col, row, f.stride[p] as int), src[p]@.len() as int),
            f.stride[p] as int,
            side(p),
            pels(p),
            zero,
            accum,
            zero_count,
            count,
        ),
    ensures
        forall|k: int|
            0 <= k < pels(p) ==> #[trigger] sample_is(f, src, preds, col, row, p, k, 0, 0, accum, count),
{
    lemma_quad_inside(f, src, col, row, p, 0);
    let o = block_start(p, col, row, f.stride[p] as int);
    let st = f.stride[p] as int;
    let s = side(p);
    let tail = src[p]@.subrange(o, src[p]@.len() as int);
    assert forall|k: int| 0 <= k < pels(p) implies #[trigger] sample_is(
        f,
        src,
        preds,
        col,
        row,
        p,
        k,
        0,
        0,
        accum,
        count,
    ) by {
        let r = k / s;
        let c = k % s;
        assert(0 <= r < s && 0 <= c < s);
        lemma_mul_inequality(r, s - 1, st);
        lemma_mul_nonnegative(r, st);
        assert(pos(0, st, s, k) == r * st + c);
        assert(tail[r * st + c] == src[p]@[o + (r * st + c)]);
        assert(accum[k] == 1000 * tail[pos(0, st, s, k)]);
        assert(count[k] == 1000);
        if quad_at(p, k) < 0 {
            assert(false);
        }
    }
}

/// Seeds the sums of a block with the frame itself.
fn seed_block(f: &TfFilter, src: &[Vec<u8>; 3], col: usize, row: usize, Ghost(preds): Ghost<Seq<TfPrediction>>) -> (r: (
    [Vec<u32>; 3],
    [Vec<u16>; 3],
))
    requires
        holds_block(*f, *src, col as int, row as int),
    ensures
        sums_are(*f, *src, preds, col as int, row as int, 0, 0, r.0, r.1),
{
    let (y, c): (usize, usize) = block_starts(f, src, col, row);
    let mut accum: [Vec<u32>; 3] = [vec![0u32; 4096], vec![0u32; 4096], vec![0u32; 4096]];
    let mut count: [Vec<u16>; 3] = [vec![0u16; 4096], vec![0u16; 4096], vec![0u16; 4096]];
    let ghost accum0 = accum;
    let ghost count0 = count;
    let y_src: &[u8] = slice_subrange(src[0].as_slice(), y, src[0].len());
    let u_src: &[u8] = slice_subrange(src[1].as_slice(), c, src[1].len());
    let v_src: &[u8] = slice_subrange(src[2].as_slice(), c, src[2].len());
    proof {
        lemma_halves(f.stride[0] as int);
        lemma_quad_inside(*f, *src, col as int, row as int, 0, 0);
        if f.tf_chroma {
            lemma_quad_inside(*f, *src, col as int, row as int, 1, 0);
            lemma_quad_inside(*f, *src, col as int, row as int, 2, 0);
        }
    }
    apply_filtering_central(
        f.tf_chroma,
        y_src,
        u_src,
        v_src,
        f.stride[0],
        &mut accum,
        &mut count,
        64,
        64,
        1,
        1,
    );
    proof {
        let (ci, ri) = (col as int, row as int);
        lemma_seeded(*f, *src, preds, ci, ri, 0, accum0[0]@, accum[0]@, count0[0]@, count[0]@);
        if f.tf_chroma {
            lemma_seeded(*f, *src, preds, ci, ri, 1, accum0[1]@, accum[1]@, count0[1]@, count[1]@);
            lemma_seeded(*f, *src, preds, ci, ri, 2, accum0[2]@, accum[2]@, count0[2]@, count[2]@);
        }
        assert forall|p: int, k: int|
            0 <= p < 3 && active(*f, p) && 0 <= k < pels(p) implies #[trigger] sample_is(
            *f,
            *src,
            preds,
            ci,
            ri,
            p,
            k,
            0,
            0,
            accum[p]@,
            count[p]@,
        ) by {
            assert(p == 0 || p == 1 || p == 2);
        }
    }
    (accum, count)
}

proof fn lemma_halves(stride: int)
    ensures
        chroma(64, 1) == 32,
        chroma(stride, 1) == stride / 2,
{
    vstd::arithmetic::power2::lemma2_to64();
}

/// `out` is `before` with a filtered block in its place.
pub open spec fn block_filtered(
    f: TfFilter,
    src: [Vec<u8>; 3],
    preds: Seq<TfPrediction>,
    col: int,
    row: int,
    p: int,
    before: Seq<u8>,
    out: Seq<u8>,
) -> bool {
    let stride = f.stride[p] as int;
    let o = block_start(p, col, row, stride);
    &&& out.len() == before.len()
    &&& forall|k: int|
        0 <= k < out.len() ==> #[trigger] out[k] == if in_rect(k, o, stride, side(p), side(p)) {
            mean_at(f, src, preds, col, row, p, ((k - o) / stride) * side(p) + (k - o) % stride)
        } else {
            before[k] as int
        }
}

proof fn lemma_can_average(
    f: TfFilter,
    src: [Vec<u8>; 3],
    preds: Seq<TfPrediction>,
    col: int,
    row: int,
    p: int,
    accum: [Vec<u32>; 3],
    count: [Vec<u16>; 3],
)
    requires
        0 <= p < 3,
        active(f, p),
        preds.len() <= 64,
        sums_are(f, src, preds, col, row, preds.len() as int, 0, accum, count),
    ensures
        can_average(accum[p]@, count[p]@, pels(p)),
{
    let n = preds.len() as int;
    assert(accum[p]@.len() == 4096 && count[p]@.len() == 4096);
    assert forall|k: int| 0 <= k < pels(p) implies (#[trigger] count[p]@[k]) > 0 && accum[p]@[k] + count[p]@[k] / 2
        <= u32::MAX by {
        assert(sample_is(f, src, preds, col, row, p, k, n, 0, accum[p]@, count[p]@));
        lemma_quad_at(p, k);
        lemma_sums_range(f, src, preds, col, row, p, k, n);
    }
}

proof fn lemma_quad_at(p: int, k: int)
    requires
        0 <= p < 3,
        0 <= k,
    ensures
        0 <= quad_at(p, k),
{
}

proof fn lemma_block_filtered(
    f: TfFilter,
    src: [Vec<u8>; 3],
    preds: Seq<TfPrediction>,
    col: int,
    row: int,
    p: int,
    before: Seq<u8>,
    out: Seq<u8>,
    accum: [Vec<u32>; 3],
    count: [Vec<u16>; 3],
)
    requires
        0 <= p < 3,
        active(f, p),
        preds.len() <= 64,
        holds_block(f, src, col, row),
        sums_are(f, src, preds, col, row, preds.len() as int, 0, accum, count),
        averaged(
            before,
            out,
            block_start(p, col, row, f.stride[p] as int),
            f.stride[p] as int,
            side(p),
            side(p),
            accum[p]@,
            count[p]@,
        ),
    ensures
        block_filtered(f, src, preds, col, row, p, before, out),
{
    let st = f.stride[p] as int;
    let o = block_start(p, col, row, st);
    let n = preds.len() as int;
    lemma_quad_inside(f, src, col, row, p, 0);
    assert forall|k: int| 0 <= k < out.len() implies #[trigger] out[k] == if in_rect(k, o, st, side(p), side(p)) {
        mean_at(f, src, preds, col, row, p, ((k - o) / st) * side(p) + (k - o) % st)
    } else {
        before[k] as int
    } by {
        if in_rect(k, o, st, side(p), side(p)) {
            lemma_fundamental_div_mod(k - o, st);
            vstd::arithmetic::div_mod::lemma_div_pos_is_pos(k - o, st);
            vstd::arithmetic::div_mod::lemma_mod_bound(k - o, st);
            let i = ((k - o) / st) * side(p) + (k - o) % st;
            assert(0 <= i < pels(p));
            assert(sample_is(f, src, preds, col, row, p, i, n, 0, accum[p]@, count[p]@));
            lemma_quad_at(p, i);
            lemma_sums_range(f, src, preds, col, row, p, i, n);
            let (s, w) = (accum[p]@[i] as int, count[p]@[i] as int);
            assert(0 <= weighted_mean(s, w) <= 255) by {
                lemma_mean_range(s, w);
            }
        }
    }
}

proof fn lemma_mean_range(s: int, w: int)
    requires
        0 < w,
        0 <= s <= 255 * w,
    ensures
        0 <= weighted_mean(s, w) <= 255,
{
    let t = s + w / 2;
    vstd::arithmetic::div_mod::lemma_div_pos_is_pos(t, w);
    if t / w >= 256 {
        lemma_fundamental_div_mod(t, w);
        lemma_mul_inequality(256, t / w, w);
        vstd::arithmetic::mul::lemma_mul_is_commutative(w, t / w);
        vstd::arithmetic::div_mod::lemma_mod_bound(t, w);
        assert(false);
    }
}

/// Replaces a block of `out` by the weighted mean of the frame and its
/// predictions.
pub fn filter_block(
    f: &TfFilter,
    src: &[Vec<u8>; 3],
    preds: &Vec<TfPrediction>,
    col: usize,
    row: usize,
    out: &mut [Vec<u8>; 3],
)
    requires
        holds_block(*f, *src, col as int, row as int),
        preds@.len() <= 64,
        forall|i: int| 0 <= i < preds@.len() ==> #[trigger] pred_fits(*f, *src, preds@[i], col as int, row as int),
        forall|p: int| 0 <= p < 3 ==> (#[trigger] old(out)[p])@.len() == src[p]@.len(),
    ensures
        forall|p: int|
            0 <= p < 3 ==> if active(*f, p) {
                block_filtered(
                    *f,
                    *src,
                    preds@,
                    col as int,
                    row as int,
                    p,
                    old(out)[p]@,
                    (#[trigger] final(out)[p])@,
                )
            } else {
                final(out)[p]@ == old(out)[p]@
            },
{
    let ghost before = *out;
    let ghost (ci, ri) = (col as int, row as int);
    let (mut accum, mut count): ([Vec<u32>; 3], [Vec<u16>; 3]) = seed_block(f, src, col, row, Ghost(preds@));
    let mut n: usize = 0;
    while n < preds.len()
        invariant
            n <= preds@.len() <= 64,
            holds_block(*f, *src, col as int, row as int),
            forall|i: int| 0 <= i < preds@.len() ==> #[trigger] pred_fits(*f, *src, preds@[i], col as int, row as int),
            sums_are(*f, *src, preds@, col as int, row as int, n as int, 0, accum, count),
        decreases preds@.len() - n,
    {
        assert(pred_fits(*f, *src, preds@[n as int], col as int, row as int));
        add_prediction(f, src, &preds[n], col, row, &mut accum, &mut count, Ghost(preds@), Ghost(n as int));
        n = n + 1;
    }
    let (y, c): (usize, usize) = block_starts(f, src, col, row);
    proof {
        lemma_quad_inside(*f, *src, ci, ri, 0, 0);
        lemma_can_average(*f, *src, preds@, ci, ri, 0, accum, count);
        assert(out[0]@.len() == src[0]@.len() && out[1]@.len() == src[1]@.len() && out[2]@.len() == src[2]@.len());
        if f.tf_chroma {
            lemma_quad_inside(*f, *src, ci, ri, 1, 0);
            lemma_quad_inside(*f, *src, ci, ri, 2, 0);
            lemma_can_average(*f, *src, preds@, ci, ri, 1, accum, count);
            lemma_can_average(*f, *src, preds@, ci, ri, 2, accum, count);
        }
    }
    get_final_filtered_pixels(f.tf_chroma, out, &accum, &count, &f.stride, y, c, 32, 32);
    proof {
        lemma_block_filtered(*f, *src, preds@, ci, ri, 0, before[0]@, out[0]@, accum, count);
        if f.tf_chroma {
            lemma_block_filtered(*f, *src, preds@, ci, ri, 1, before[1]@, out[1]@, accum, count);
            lemma_block_filtered(*f, *src, preds@, ci, ri, 2, before[2]@, out[2]@, accum, count);
        }
    }
}


/// A sample lies in the block of its column and row, at its place there.
proof fn lemma_rect(k: int, col: int, row: int, w: int, stride: int)
    requires
        0 <= k,
        0 <= col,
        0 <= row,
        0 < w,
        col * w + w <= stride,
    ensures
        ({
            let o = (row * w) * stride + col * w;
            &&& in_rect(k, o, stride, w, w) <==> (k % stride) / w == col && (k / stride) / w == row
            &&& in_rect(k, o, stride, w, w) ==> (k - o) / stride == (k / stride) % w && (k - o) % stride == (k % stride)
                % w
        }),
{
    let o = (row * w) * stride + col * w;
    lemma_mul_nonnegative(col, w);
    lemma_mul_nonnegative(row, w);
    let r = k / stride;
    let c = k % stride;
    lemma_fundamental_div_mod(k, stride);
    vstd::arithmetic::mul::lemma_mul_is_commutative(stride, r);
    vstd::arithmetic::div_mod::lemma_mod_bound(k, stride);
    vstd::arithmetic::div_mod::lemma_div_pos_is_pos(k, stride);
    if c / w == col && r / w == row {
        lemma_fundamental_div_mod(c, w);
        lemma_fundamental_div_mod(r, w);
        vstd::arithmetic::mul::lemma_mul_is_commutative(w, col);
        vstd::arithmetic::mul::lemma_mul_is_commutative(w, row);
        vstd::arithmetic::div_mod::lemma_mod_bound(c, w);
        vstd::arithmetic::div_mod::lemma_mod_bound(r, w);
        let d = r % w;
        let e = c % w;
        lemma_mul_is_distributive_add_other_way(stride, row * w, d);
        lemma_mul_nonnegative(d, stride);
        lemma_fundamental_div_mod_converse(k - o, stride, d, e);
    }
    if in_rect(k, o, stride, w, w) {
        let d = (k - o) / stride;
        let e = (k - o) % stride;
        lemma_fundamental_div_mod(k - o, stride);
        vstd::arithmetic::mul::lemma_mul_is_commutative(stride, d);
        vstd::arithmetic::div_mod::lemma_mod_bound(k - o, stride);
        vstd::arithmetic::div_mod::lemma_div_pos_is_pos(k - o, stride);
        lemma_mul_is_distributive_add_other_way(stride, row * w, d);
        lemma_fundamental_div_mod_converse(k, stride, row * w + d, col * w + e);
        lemma_fundamental_div_mod_converse(c, w, col, e);
        lemma_fundamental_div_mod_converse(r, w, row, d);
    }
}

/// Column and row of the block that sample `k` of a plane lies in.
pub open spec fn block_at(p: int, stride: int, k: int) -> (int, int) {
    ((k % stride) / side(p), (k / stride) / side(p))
}

/// Place of sample `k` of a plane in its block, counted row by row.
pub open spec fn place_at(p: int, stride: int, k: int) -> int {
    ((k / stride) % side(p)) * side(p) + (k % stride) % side(p)
}

/// A plane with the blocks of `done` filtered, each with its predictions.
pub open spec fn plane_is(
    f: TfFilter,
    src: [Vec<u8>; 3],
    done: Map<(int, int), Seq<TfPrediction>>,
    p: int,
    out: Seq<u8>,
) -> bool {
    let stride = f.stride[p] as int;
    &&& out.len() == src[p]@.len()
    &&& forall|k: int|
        0 <= k < out.len() ==> #[trigger] out[k] == if active(f, p) && done.contains_key(block_at(p, stride, k)) {
            let b = block_at(p, stride, k);
            mean_at(f, src, done[b], b.0, b.1, p, place_at(p, stride, k))
        } else {
            src[p]@[k] as int
        }
}

/// A frame with the blocks of `done` filtered, each with its predictions.
pub open spec fn frame_is(
    f: TfFilter,
    src: [Vec<u8>; 3],
    done: Map<(int, int), Seq<TfPrediction>>,
    out: [Vec<u8>; 3],
) -> bool {
    forall|p: int| 0 <= p < 3 ==> plane_is(f, src, done, p, (#[trigger] out[p])@)
}

proof fn lemma_plane_step(
    f: TfFilter,
    src: [Vec<u8>; 3],
    done: Map<(int, int), Seq<TfPrediction>>,
    preds: Seq<TfPrediction>,
    col: int,
    row: int,
    p: int,
    before: Seq<u8>,
    out: Seq<u8>,
)
    requires
        0 <= p < 3,
        active(f, p),
        holds_block(f, src, col, row),
        plane_is(f, src, done, p, before),
        block_filtered(f, src, preds, col, row, p, before, out),
    ensures
        plane_is(f, src, done.insert((col, row), preds), p, out),
{
    let st = f.stride[p] as int;
    let o = block_start(p, col, row, st);
    let next = done.insert((col, row), preds);
    assert(col * side(p) + side(p) <= st) by {
        assert(o + (side(p) - 1) * st + side(p) <= src[p]@.len());
        lemma_mul_is_distributive_add_other_way(side(p), col, 1);
    }
    assert forall|k: int| 0 <= k < out.len() implies #[trigger] out[k] == if next.contains_key(block_at(p, st, k)) {
        let b = block_at(p, st, k);
        mean_at(f, src, next[b], b.0, b.1, p, place_at(p, st, k))
    } else {
        src[p]@[k] as int
    } by {
        lemma_rect(k, col, row, side(p), st);
        assert(before[k] == if done.contains_key(block_at(p, st, k)) {
            let b = block_at(p, st, k);
            mean_at(f, src, done[b], b.0, b.1, p, place_at(p, st, k))
        } else {
            src[p]@[k] as int
        });
    }
}

/// The displacements from which weights are computed have a length.
pub open spec fn state_fits(st: TfSearchState) -> bool {
    &&& forall|i: int| 0 <= i < 16 ==> (#[trigger] st.mv_16x16_x[i]) > i16::MIN || st.mv_16x16_y[i] > i16::MIN
    &&& forall|i: int| 0 <= i < 4 ==> (#[trigger] st.mv_32x32_x[i]) > i16::MIN || st.mv_32x32_y[i] > i16::MIN
}

/// The state that the predictions of a block leave: that of the last, or the
/// one they started from where there are none.
pub open spec fn left_by(preds: Seq<TfPrediction>, before: TfSearchState) -> TfSearchState {
    if preds.len() == 0 {
        before
    } else {
        preds.last().state
    }
}

/// The state in which the search of block `n` of a walk starts.
pub open spec fn state_before(
    done: Map<(int, int), Seq<TfPrediction>>,
    walk: Seq<(int, int)>,
    first: TfSearchState,
    n: int,
) -> TfSearchState
    decreases n,
{
    if n <= 0 {
        first
    } else {
        left_by(done[walk[n - 1]], state_before(done, walk, first, n - 1))
    }
}

/// The first `n` blocks of a row, from column `from` on.
pub open spec fn row_walk(from: int, row: int, n: int) -> Seq<(int, int)> {
    Seq::new(n as nat, |i: int| (from + i, row))
}

/// The blocks of the first `n` rows from `row` on, between two columns, row by
/// row.
pub open spec fn rect_walk(from: int, to: int, row: int, n: int) -> Seq<(int, int)>
    decreases n,
{
    if n <= 0 {
        Seq::empty()
    } else {
        rect_walk(from, to, row, n - 1) + row_walk(from, row + n - 1, to - from)
    }
}

/// The blocks of the first `n` segments of a frame, segment by segment.
pub open spec fn frame_walk(cols: int, rows: int, seg_cols: int, seg_rows: int, n: int) -> Seq<(int, int)>
    decreases n,
{
    if n <= 0 {
        Seq::empty()
    } else {
        let (c, r) = ((n - 1) % seg_cols, (n - 1) / seg_cols);
        let top = strip_start(r, rows, seg_rows);
        frame_walk(cols, rows, seg_cols, seg_rows, n - 1) + rect_walk(
            strip_start(c, cols, seg_cols),
            strip_start(c + 1, cols, seg_cols),
            top,
            strip_start(r + 1, rows, seg_rows) - top,
        )
    }
}

/// The predictions that `predict` may return for a block, with the state that
/// its search starts from.
pub open spec fn may_predict<P: Fn(usize, usize, TfSearchState) -> Vec<TfPrediction>>(
    predict: P,
    col: int,
    row: int,
    before: TfSearchState,
    preds: Seq<TfPrediction>,
) -> bool {
    exists|v: Vec<TfPrediction>| #[trigger]
        call_ensures(predict, (col as usize, row as usize, before), v) && v@ == preds
}

/// `predict` can be asked for every block, and what it returns can be added
/// to the sums.
pub open spec fn is_predict<P: Fn(usize, usize, TfSearchState) -> Vec<TfPrediction>>(
    predict: P,
    f: TfFilter,
    src: [Vec<u8>; 3],
    cols: int,
    rows: int,
) -> bool {
    &&& forall|c: usize, r: usize, st: TfSearchState|
        c < cols && r < rows && state_fits(st) ==> #[trigger] call_requires(predict, (c, r, st))
    &&& forall|c: usize, r: usize, st: TfSearchState, v: Vec<TfPrediction>| #[trigger]
        call_ensures(predict, (c, r, st), v) && c < cols && r < rows && state_fits(st) ==> v@.len() <= 64 && forall|
            i: int,
        | 0 <= i < v@.len() ==> #[trigger] pred_fits(f, src, v@[i], c as int, r as int)
}

/// The blocks of a walk, and no others, have been asked for: each once, in
/// the order of the walk, with the state that the one before it left.
pub open spec fn asked<P: Fn(usize, usize, TfSearchState) -> Vec<TfPrediction>>(
    predict: P,
    done: Map<(int, int), Seq<TfPrediction>>,
    walk: Seq<(int, int)>,
    first: TfSearchState,
) -> bool {
    &&& forall|b: (int, int)| #[trigger] done.contains_key(b) <==> walk.contains(b)
    &&& forall|n: int| 0 <= n < walk.len() ==> #[trigger] visited(predict, done, walk, first, n)
    &&& walk.no_duplicates()
}

/// Block `n` of a walk has been asked for.
pub open spec fn visited<P: Fn(usize, usize, TfSearchState) -> Vec<TfPrediction>>(
    predict: P,
    done: Map<(int, int), Seq<TfPrediction>>,
    walk: Seq<(int, int)>,
    first: TfSearchState,
    n: int,
) -> bool {
    may_predict(predict, walk[n].0, walk[n].1, state_before(done, walk, first, n), done[walk[n]])
}

proof fn lemma_state_kept(
    done: Map<(int, int), Seq<TfPrediction>>,
    walk: Seq<(int, int)>,
    b: (int, int),
    preds: Seq<TfPrediction>,
    first: TfSearchState,
    n: int,
)
    requires
        0 <= n <= walk.len(),
        !walk.contains(b),
    ensures
        state_before(done.insert(b, preds), walk.push(b), first, n) == state_before(done, walk, first, n),
    decreases n,
{
    if n > 0 {
        lemma_state_kept(done, walk, b, preds, first, n - 1);
        assert(walk.push(b)[n - 1] == walk[n - 1]);
        assert(walk.contains(walk[n - 1]));
    }
}

proof fn lemma_next_visit<P: Fn(usize, usize, TfSearchState) -> Vec<TfPrediction>>(
    predict: P,
    done: Map<(int, int), Seq<TfPrediction>>,
    walk: Seq<(int, int)>,
    first: TfSearchState,
    col: usize,
    row: usize,
    preds: Vec<TfPrediction>,
)
    requires
        asked(predict, done, walk, first),
        !walk.contains((col as int, row as int)),
        call_ensures(predict, (col, row, state_before(done, walk, first, walk.len() as int)), preds),
    ensures
        ({
            let b = (col as int, row as int);
            let (next, on) = (done.insert(b, preds@), walk.push(b));
            &&& asked(predict, next, on, first)
            &&& state_before(next, on, first, on.len() as int) == left_by(
                preds@,
                state_before(done, walk, first, walk.len() as int),
            )
        }),
{
    let b = (col as int, row as int);
    let (next, on) = (done.insert(b, preds@), walk.push(b));
    let len = walk.len() as int;
    assert forall|n: int| 0 <= n < on.len() implies #[trigger] visited(predict, next, on, first, n) by {
        lemma_state_kept(done, walk, b, preds@, first, n);
        if n < len {
            assert(visited(predict, done, walk, first, n));
            assert(on[n] == walk[n] && walk.contains(walk[n]));
        } else {
            assert((b.0 as usize, b.1 as usize) == (col, row));
            assert(may_predict(predict, b.0, b.1, state_before(done, walk, first, len), preds@));
        }
    }
    lemma_state_kept(done, walk, b, preds@, first, len);
    assert forall|k: (int, int)| #[trigger] next.contains_key(k) <==> on.contains(k) by {
        if walk.contains(k) {
            let i = walk.index_of(k);
            assert(on[i] == k);
        }
        assert(on[len] == b);
        if on.contains(k) && k != b {
            let i = on.index_of(k);
            assert(walk[i] == k);
        }
    }
    assert forall|i: int, j: int| 0 <= i < on.len() && 0 <= j < on.len() && i != j implies on[i] != on[j] by {
        if i == len {
            assert(on[j] == walk[j] && walk.contains(walk[j]));
        } else if j == len {
            assert(on[i] == walk[i] && walk.contains(walk[i]));
        }
    }
}

fn filter_segment<P: Fn(usize, usize, TfSearchState) -> Vec<TfPrediction>>(
    f: &TfFilter,
    src: &[Vec<u8>; 3],
    rect: (usize, usize, usize, usize),
    out: &mut [Vec<u8>; 3],
    predict: &P,
    state: TfSearchState,
    Ghost(done0): Ghost<Map<(int, int), Seq<TfPrediction>>>,
    Ghost(walk0): Ghost<Seq<(int, int)>>,
    Ghost(first): Ghost<TfSearchState>,
    Ghost(cols): Ghost<int>,
    Ghost(rows): Ghost<int>,
) -> (r: (TfSearchState, Ghost<Map<(int, int), Seq<TfPrediction>>>))
    requires
        rect.0 <= rect.1 <= cols,
        rect.2 <= rect.3 <= rows,
        forall|c: int, r: int| 0 <= c < cols && 0 <= r < rows ==> #[trigger] holds_block(*f, *src, c, r),
        is_predict(*predict, *f, *src, cols, rows),
        frame_is(*f, *src, done0, *old(out)),
        asked(*predict, done0, walk0, first),
        state_fits(state),
        state == state_before(done0, walk0, first, walk0.len() as int),
        forall|c: int, r: int|
            rect.0 <= c < rect.1 && rect.2 <= r < rect.3 ==> !(#[trigger] done0.contains_key((c, r))),
    ensures
        ({
            let walk = walk0 + rect_walk(rect.0 as int, rect.1 as int, rect.2 as int, rect.3 - rect.2);
            &&& frame_is(*f, *src, r.1@, *final(out))
            &&& asked(*predict, r.1@, walk, first)
            &&& state_fits(r.0)
            &&& r.0 == state_before(r.1@, walk, first, walk.len() as int)
        }),
        forall|b: (int, int)| #[trigger]
            r.1@.contains_key(b) <==> done0.contains_key(b) || (rect.0 <= b.0 < rect.1 && rect.2 <= b.1 < rect.3),
{
    let ghost mut done = done0;
    let ghost mut walk = walk0;
    let ghost (c0, c1, r0) = (rect.0 as int, rect.1 as int, rect.2 as int);
    let mut st: TfSearchState = state;
    let mut row: usize = rect.2;
    assert(walk0 =~= walk0 + rect_walk(c0, c1, r0, 0));
    while row < rect.3
        invariant
            c0 == rect.0 && c1 == rect.1 && r0 == rect.2,
            rect.0 <= rect.1 <= cols,
            rect.2 <= row <= rect.3 <= rows,
            forall|c: int, r: int| 0 <= c < cols && 0 <= r < rows ==> #[trigger] holds_block(*f, *src, c, r),
            is_predict(*predict, *f, *src, cols, rows),
            frame_is(*f, *src, done, *out),
            asked(*predict, done, walk, first),
            state_fits(st),
            st == state_before(done, walk, first, walk.len() as int),
            walk == walk0 + rect_walk(c0, c1, r0, row - r0),
            forall|c: int, r: int|
                rect.0 <= c < rect.1 && rect.2 <= r < rect.3 ==> !(#[trigger] done0.contains_key((c, r))),
            forall|b: (int, int)| #[trigger]
                done.contains_key(b) <==> done0.contains_key(b) || (c0 <= b.0 < c1 && r0 <= b.1 < row),
        decreases rect.3 - row,
    {
        let mut col: usize = rect.0;
        let ghost upto = walk;
        assert(upto + row_walk(c0, row as int, 0) =~= upto);
        while col < rect.1
            invariant
                c0 == rect.0 && c1 == rect.1 && r0 == rect.2,
                rect.0 <= col <= rect.1 <= cols,
                rect.2 <= row < rect.3 <= rows,
                forall|c: int, r: int| 0 <= c < cols && 0 <= r < rows ==> #[trigger] holds_block(*f, *src, c, r),
                is_predict(*predict, *f, *src, cols, rows),
                frame_is(*f, *src, done, *out),
                asked(*predict, done, walk, first),
                state_fits(st),
                st == state_before(done, walk, first, walk.len() as int),
                walk == upto + row_walk(c0, row as int, col - c0),
                forall|c: int, r: int|
                    rect.0 <= c < rect.1 && rect.2 <= r < rect.3 ==> !(#[trigger] done0.contains_key((c, r))),
                forall|b: (int, int)| #[trigger]
                    done.contains_key(b) <==> done0.contains_key(b) || (c0 <= b.0 < c1 && r0 <= b.1 < row) || (c0
                        <= b.0 < col && b.1 == row),
            decreases rect.1 - col,
        {
            let ghost before = *out;
            let preds: Vec<TfPrediction> = predict(col, row, st);
            assert(holds_block(*f, *src, col as int, row as int));
            proof {
                assert forall|p: int| 0 <= p < 3 implies (#[trigger] out[p])@.len() == src[p]@.len() by {
                    assert(plane_is(*f, *src, done, p, out[p]@));
                }
            }
            filter_block(f, src, &preds, col, row, out);
            proof {
                let b = (col as int, row as int);
                let next = done.insert(b, preds@);
                assert forall|p: int| 0 <= p < 3 implies plane_is(*f, *src, next, p, (#[trigger] out[p])@) by {
                    assert(plane_is(*f, *src, done, p, before[p]@));
                    if active(*f, p) {
                        lemma_plane_step(
                            *f,
                            *src,
                            done,
                            preds@,
                            col as int,
                            row as int,
                            p,
                            before[p]@,
                            out[p]@,
                        );
                    }
                }
                assert(!done0.contains_key(b));
                assert(!done.contains_key(b));
                lemma_next_visit(*predict, done, walk, first, col, row, preds);
                assert(walk.push(b) =~= upto + row_walk(c0, row as int, col + 1 - c0));
                walk = walk.push(b);
                done = next;
            }
            let n: usize = preds.len();
            if n > 0 {
                assert(pred_fits(*f, *src, preds@[n - 1], col as int, row as int));
                st = preds[n - 1].state;
            }
            col = col + 1;
        }
        assert(walk =~= walk0 + rect_walk(c0, c1, r0, row + 1 - r0));
        row = row + 1;
    }
    (st, Ghost(done))
}

/// Filters a frame, segment by segment: every block becomes the weighted mean
/// of itself and what `predict` returns for it. The search of a block starts
/// from the state that the one before it left, the first from `state`.
pub fn filter_planes<P: Fn(usize, usize, TfSearchState) -> Vec<TfPrediction>>(
    scs: &RaTfScs,
    f: &TfFilter,
    frame: &mut [Vec<u8>; 3],
    state: TfSearchState,
    predict: &P,
)
    requires
        scs.aligned_width <= 0xffff_ffc0,
        scs.aligned_height <= 0xffff_ffc0,
        segments_fit(*scs),
        state_fits(state),
        ({
            let (cols, rows) = block_grid(*scs);
            &&& forall|c: int, r: int| 0 <= c < cols && 0 <= r < rows ==> #[trigger] holds_block(*f, *old(frame), c, r)
            &&& is_predict(*predict, *f, *old(frame), cols, rows)
        }),
    ensures
        exists|done: Map<(int, int), Seq<TfPrediction>>|
            {
                &&& #[trigger] frame_is(*f, *old(frame), done, *final(frame))
                &&& asked(*predict, done, walk_of(*scs), state)
                &&& covers_grid(done, *scs)
            },
{
    let grid: TfBlockGrid = tf_block_grid(scs.aligned_width, scs.aligned_height, 1, 1);
    let cols: usize = grid.blk_cols as usize;
    let rows: usize = grid.blk_rows as usize;
    let seg_cols: usize = scs.tf_segment_column_count as usize;
    let seg_rows: usize = scs.tf_segment_row_count as usize;
    let mut out: [Vec<u8>; 3] = [copy_plane(&frame[0]), copy_plane(&frame[1]), copy_plane(&frame[2])];
    let ghost src = *frame;
    let ghost mut done: Map<(int, int), Seq<TfPrediction>> = Map::empty();
    assert(frame_is(*f, src, done, out)) by {
        assert forall|p: int| 0 <= p < 3 implies plane_is(*f, src, done, p, (#[trigger] out[p])@) by {
            assert(p == 0 || p == 1 || p == 2);
        }
    }
    proof {
        lemma_mul_nonnegative(seg_cols as int, seg_rows as int);
    }
    let segments: usize = seg_cols * seg_rows;
    let mut st: TfSearchState = state;
    let mut seg: usize = 0;
    let ghost (gc, gr, sgc, sgr) = (cols as int, rows as int, seg_cols as int, seg_rows as int);
    while seg < segments
        invariant
            seg <= segments,
            segments == seg_cols * seg_rows,
            0 < seg_cols,
            0 < seg_rows,
            gc == cols && gr == rows && sgc == seg_cols && sgr == seg_rows,
            seg_cols * cols <= usize::MAX,
            seg_rows * rows <= usize::MAX,
            *frame == src,
            forall|c: int, r: int| 0 <= c < cols && 0 <= r < rows ==> #[trigger] holds_block(*f, src, c, r),
            is_predict(*predict, *f, src, cols as int, rows as int),
            frame_is(*f, src, done, out),
            asked(*predict, done, frame_walk(gc, gr, sgc, sgr, seg as int), state),
            state_fits(st),
            st == state_before(
                done,
                frame_walk(gc, gr, sgc, sgr, seg as int),
                state,
                frame_walk(gc, gr, sgc, sgr, seg as int).len() as int,
            ),
            forall|b: (int, int)| #[trigger] done.contains_key(b) ==> 0 <= b.0 < cols && 0 <= b.1 < rows,
            forall|c: int, r: int, sc: int, sr: int|
                in_strip(c, sc, gc, sgc) && in_strip(r, sr, gr, sgr) ==> (#[trigger] done_in(done, c, r, sc, sr)
                    <==> sr * seg_cols + sc < seg),
        decreases segments - seg,
    {
        let rect: (usize, usize, usize, usize) = tf_segment_block_rect(seg, seg_cols, seg_rows, cols, rows);
        let ghost before = done;
        let ghost walk = frame_walk(gc, gr, sgc, sgr, seg as int);
        let ghost (c, r) = (seg as int % sgc, seg as int / sgc);
        proof {
            lemma_fundamental_div_mod(seg as int, sgc);
            vstd::arithmetic::mul::lemma_mul_is_commutative(sgc, r);
            vstd::arithmetic::div_mod::lemma_mod_bound(seg as int, sgc);
            vstd::arithmetic::div_mod::lemma_div_pos_is_pos(seg as int, sgc);
            assert(r < sgr) by (nonlinear_arith)
                requires
                    r * sgc <= seg < sgc * sgr,
                    0 < sgc,
            ;
            assert forall|x: int, y: int|
                rect.0 <= x < rect.1 && rect.2 <= y < rect.3 implies !(#[trigger] before.contains_key((x, y))) by {
                assert(in_strip(x, c, gc, sgc) && in_strip(y, r, gr, sgr));
                assert(!done_in(before, x, y, c, r));
            }
        }
        let (left, Ghost(next)) = filter_segment(
            f,
            &*frame,
            rect,
            &mut out,
            predict,
            st,
            Ghost(done),
            Ghost(walk),
            Ghost(state),
            Ghost(cols as int),
            Ghost(rows as int),
        );
        proof {
            assert forall|x: int, y: int, sc: int, sr: int|
                in_strip(x, sc, gc, sgc) && in_strip(y, sr, gr, sgr) implies (#[trigger] done_in(next, x, y, sc, sr)
                <==> sr * seg_cols + sc < seg + 1) by {
                assert(done_in(before, x, y, sc, sr) <==> sr * seg_cols + sc < seg);
                if rect.0 <= x < rect.1 && rect.2 <= y < rect.3 {
                    assert(in_strip(x, c, gc, sgc) && in_strip(y, r, gr, sgr));
                    let _ = strips_part_the_blocks(x, gc, sgc);
                    let _ = strips_part_the_blocks(y, gr, sgr);
                } else if sr * seg_cols + sc == seg {
                    lemma_fundamental_div_mod_converse(seg as int, sgc, sr, sc);
                }
            }
            done = next;
        }
        st = left;
        seg = seg + 1;
    }
    proof {
        assert forall|c: int, r: int| 0 <= c < cols && 0 <= r < rows implies #[trigger] done.contains_key((c, r)) by {
            let sc = strips_part_the_blocks(c, cols as int, seg_cols as int);
            let sr = strips_part_the_blocks(r, rows as int, seg_rows as int);
            lemma_mul_inequality(sr + 1, seg_rows as int, seg_cols as int);
            lemma_mul_is_distributive_add_other_way(seg_cols as int, sr, 1);
            vstd::arithmetic::mul::lemma_mul_is_commutative(seg_cols as int, seg_rows as int);
            assert(done_in(done, c, r, sc, sr));
        }
        vstd::arithmetic::mul::lemma_mul_is_commutative(seg_cols as int, seg_rows as int);
        assert(asked(*predict, done, walk_of(*scs), state));
    }
    *frame = out;
}

/// Blocks across and down.
pub open spec fn block_grid(scs: RaTfScs) -> (int, int) {
    ((scs.aligned_width + 63) / 64, (scs.aligned_height + 63) / 64)
}

/// The segments of a frame can be counted, and their places computed.
pub open spec fn segments_fit(scs: RaTfScs) -> bool {
    let (cols, rows) = block_grid(scs);
    &&& 0 < scs.tf_segment_column_count
    &&& 0 < scs.tf_segment_row_count
    &&& scs.tf_segment_column_count * scs.tf_segment_row_count <= u32::MAX
    &&& scs.tf_segment_column_count * cols <= usize::MAX
    &&& scs.tf_segment_row_count * rows <= usize::MAX
}

/// The blocks of a frame in the order in which they are filtered.
pub open spec fn walk_of(scs: RaTfScs) -> Seq<(int, int)> {
    let (cols, rows) = block_grid(scs);
    let (c, r) = (scs.tf_segment_column_count as int, scs.tf_segment_row_count as int);
    frame_walk(cols, rows, c, r, c * r)
}

/// Every block of the frame has been filtered, and nothing else.
pub open spec fn covers_grid(done: Map<(int, int), Seq<TfPrediction>>, scs: RaTfScs) -> bool {
    let (cols, rows) = block_grid(scs);
    forall|b: (int, int)| #[trigger] done.contains_key(b) <==> 0 <= b.0 < cols && 0 <= b.1 < rows
}

/// The block has been filtered; the strips it lies in are named with it.
pub open spec fn done_in(done: Map<(int, int), Seq<TfPrediction>>, c: int, r: int, sc: int, sr: int) -> bool {
    done.contains_key((c, r))
}

fn copy_plane(plane: &Vec<u8>) -> (r: Vec<u8>)
    ensures
        r@ == plane@,
{
    let mut out: Vec<u8> = Vec::new();
    let mut i: usize = 0;
    while i < plane.len()
        invariant
            i <= plane@.len(),
            out@ == plane@.take(i as int),
        decreases plane@.len() - i,
    {
        out.push(plane[i]);
        i = i + 1;
    }
    assert(plane@.take(i as int) =~= plane@);
    out
}

/// Blocks without predictions keep their samples.
pub proof fn unpredicted_blocks_are_kept(
    f: TfFilter,
    src: [Vec<u8>; 3],
    done: Map<(int, int), Seq<TfPrediction>>,
    out: [Vec<u8>; 3],
    p: int,
    k: int,
)
    requires
        0 <= p < 3,
        frame_is(f, src, done, out),
        0 <= k < src[p]@.len(),
        0 < f.stride[p],
        done.contains_key(block_at(p, f.stride[p] as int, k)) ==> done[block_at(p, f.stride[p] as int, k)].len() == 0,
    ensures
        out[p]@[k] == src[p]@[k],
{
    let st = f.stride[p] as int;
    let s = side(p);
    assert(plane_is(f, src, done, p, out[p]@));
    assert(out[p]@.len() == src[p]@.len());
    if active(f, p) && done.contains_key(block_at(p, st, k)) {
        let b = block_at(p, st, k);
        let i = place_at(p, st, k);
        let r = k / st;
        let c = k % st;
        lemma_fundamental_div_mod(k, st);
        vstd::arithmetic::mul::lemma_mul_is_commutative(st, r);
        assert(0 <= r % s < s && 0 <= c % s < s);
        assert(i / s == r % s && i % s == c % s);
        assert(r == b.1 * s + r % s && c == b.0 * s + c % s);
        lemma_mul_is_distributive_add_other_way(st, b.1 * s, r % s);
        assert(block_start(p, b.0, b.1, st) + (i / s) * st + i % s == k);
        assert(mean_at(f, src, done[b], b.0, b.1, p, i) == weighted_mean(1000 * src[p]@[k], 1000));
        assert(out[p]@[k] == mean_at(f, src, done[b], b.0, b.1, p, i));
        let v = src[p]@[k] as int;
        assert((1000 * v + 1000int / 2) / 1000 == v);
    }
}

} // verus!
