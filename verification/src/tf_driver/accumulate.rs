//! The sums of a block: the frame itself at full weight, and each prediction
//! with weights of its own.

use vstd::arithmetic::div_mod::lemma_div_pos_is_pos;
use vstd::arithmetic::mul::{lemma_mul_inequality, lemma_mul_is_distributive_add_other_way, lemma_mul_nonnegative};
use vstd::prelude::*;
use vstd::slice::slice_subrange;

use crate::arith::total;
use crate::temporal_filtering::blocks::{plane_start, TfBlockOffsets};
use crate::temporal_filtering::kernels::{
    apply_temporal_filter_planewise_medium, block_added, block_index, chroma, decay_used, error_terms, hit, luma_errors,
    m32, motion_ok, plane_in, quad_block_error, quad_motion, quarter_of, quarter_start, weighted_mean,
    weights_stay_in_range, window_error, zero_errors, PlaneIn, TfKernelCtx,
};
use crate::tf_driver::ladder::{kernel_view, TfSearchState};

verus! {

/// What the filter of a frame is set to.
#[derive(Debug, Clone, Copy)]
pub struct TfFilter {
    pub tf_chroma: bool,
    /// Displacement from which on a prediction loses weight, in tenths.
    pub tf_mv_dist_th: u32,
    /// Decay factors of the three planes.
    pub decay: [u32; 3],
    /// Distances of the rows of the three planes.
    pub stride: [usize; 3],
}

/// A block as a reference predicts it: its planes, 64, 32 and 32 samples
/// wide, and the motion they were predicted with.
#[derive(Debug)]
pub struct TfPrediction {
    pub planes: [Vec<u8>; 3],
    pub state: TfSearchState,
}

/// Side of a block in a plane.
pub open spec fn side(p: int) -> int {
    if p == 0 {
        64
    } else {
        32
    }
}

/// Samples of a block in a plane.
pub open spec fn pels(p: int) -> int {
    if p == 0 {
        4096
    } else {
        1024
    }
}

/// The plane is filtered.
pub open spec fn active(f: TfFilter, p: int) -> bool {
    p == 0 || f.tf_chroma
}

/// Where a block starts in a plane of the frame.
pub open spec fn block_start(p: int, col: int, row: int, stride: int) -> int {
    plane_start(row, col, side(p), side(p), stride)
}

/// Where quadrant `q` of a block starts in a plane, from the start of the
/// block.
pub open spec fn quad_start(p: int, q: int, stride: int) -> int {
    plane_start(q / 2, q % 2, side(p) / 2, side(p) / 2, stride)
}

/// One plane of a quadrant, of the frame and of a prediction.
pub open spec fn quad_plane(
    f: TfFilter,
    src: [Vec<u8>; 3],
    pred: TfPrediction,
    col: int,
    row: int,
    p: int,
    q: int,
) -> PlaneIn<u8> {
    let s = src[p]@;
    let r = pred.planes[p]@;
    let stride = f.stride[p] as int;
    plane_in(
        s.subrange(block_start(p, col, row, stride) + quad_start(p, q, stride), s.len() as int),
        f.stride[p],
        r.subrange(quad_start(p, q, side(p)), r.len() as int),
        side(p) as usize,
        side(p) / 2,
        side(p) / 2,
        f.decay[p],
        p > 0,
        8,
        false,
    )
}

/// What the kernels read of the motion of quadrant `q`.
pub open spec fn quad_ctx(f: TfFilter, pred: TfPrediction, q: int) -> TfKernelCtx {
    kernel_view(pred.state, (q % 2) as i32, (q / 2) as i32, f.tf_mv_dist_th, f.tf_chroma, f.decay)
}

/// Errors of luma that chroma takes in.
pub open spec fn quad_luma(
    f: TfFilter,
    src: [Vec<u8>; 3],
    pred: TfPrediction,
    col: int,
    row: int,
    p: int,
    q: int,
) -> Seq<u32> {
    if p == 0 {
        zero_errors()
    } else {
        luma_errors(quad_plane(f, src, pred, col, row, 0, q))
    }
}

/// Weights of the quarters of quadrant `q`.
#[verifier::opaque]
pub open spec fn quad_weights(
    f: TfFilter,
    src: [Vec<u8>; 3],
    pred: TfPrediction,
    col: int,
    row: int,
    p: int,
    q: int,
) -> Seq<int> {
    quad_plane(f, src, pred, col, row, p, q).weights(
        quad_ctx(f, pred, q),
        quad_luma(f, src, pred, col, row, p, q),
    )
}

/// Quadrant of sample `k` of a block, counted row by row.
pub open spec fn quad_at(p: int, k: int) -> int {
    2 * ((k / side(p)) / (side(p) / 2)) + (k % side(p)) / (side(p) / 2)
}

/// Quarter of its quadrant that sample `k` lies in.
pub open spec fn quarter_at(p: int, k: int) -> int {
    2 * (((k / side(p)) % (side(p) / 2)) / (side(p) / 4)) + ((k % side(p)) % (side(p) / 2)) / (side(p) / 4)
}

/// Weight of sample `k` of a prediction.
pub open spec fn weight_at(
    f: TfFilter,
    src: [Vec<u8>; 3],
    pred: TfPrediction,
    col: int,
    row: int,
    p: int,
    k: int,
) -> int {
    quad_weights(f, src, pred, col, row, p, quad_at(p, k))[quarter_at(p, k)]
}

/// The plane of a prediction can be added to the sums: its errors fit 32
/// bits.
pub open spec fn quad_fits(
    f: TfFilter,
    src: [Vec<u8>; 3],
    pred: TfPrediction,
    col: int,
    row: int,
    p: int,
    q: int,
) -> bool {
    let plane = quad_plane(f, src, pred, col, row, p, q);
    let ctx = quad_ctx(f, pred, q);
    let luma = quad_luma(f, src, pred, col, row, p, q);
    &&& plane.errors_fit(ctx, luma, 0)
    &&& plane.errors_fit(ctx, luma, 1)
    &&& plane.errors_fit(ctx, luma, 2)
    &&& plane.errors_fit(ctx, luma, 3)
}

/// The prediction holds a block, and can be added to the sums.
pub open spec fn pred_fits(f: TfFilter, src: [Vec<u8>; 3], pred: TfPrediction, col: int, row: int) -> bool {
    &&& pred.planes[0]@.len() >= 4096
    &&& f.tf_chroma ==> pred.planes[1]@.len() >= 1024 && pred.planes[2]@.len() >= 1024
    &&& forall|i: int|
        0 <= i < 16 ==> (#[trigger] pred.state.mv_16x16_x[i]) > i16::MIN || pred.state.mv_16x16_y[i] > i16::MIN
    &&& forall|i: int|
        0 <= i < 4 ==> (#[trigger] pred.state.mv_32x32_x[i]) > i16::MIN || pred.state.mv_32x32_y[i] > i16::MIN
    &&& forall|p: int, q: int|
        0 <= p < 3 && 0 <= q < 4 && active(f, p) ==> #[trigger] quad_fits(f, src, pred, col, row, p, q)
}

/// The planes of a frame hold a block, and the distances of the rows of
/// chroma, where it is filtered, are half of those of luma.
pub open spec fn holds_block(f: TfFilter, src: [Vec<u8>; 3], col: int, row: int) -> bool {
    &&& f.tf_chroma ==> f.stride[0] as int / 2 == f.stride[1] && f.stride[2] == f.stride[1]
    &&& 0 <= col
    &&& 0 <= row
    &&& forall|p: int|
        0 <= p < 3 && active(f, p) ==> {
            &&& (col + 1) * side(p) <= f.stride[p]
            &&& #[trigger] block_start(p, col, row, f.stride[p] as int) + (side(p) - 1) * f.stride[p] + side(p)
                <= src[p]@.len()
        }
}

/// Sums of a plane after one quadrant of a prediction has been added.
pub open spec fn quad_added(
    weights: Seq<int>,
    pre: Seq<u8>,
    p: int,
    q: int,
    accum0: Seq<u32>,
    accum: Seq<u32>,
    count0: Seq<u16>,
    count: Seq<u16>,
) -> bool {
    &&& accum.len() == accum0.len()
    &&& count.len() == count0.len()
    &&& forall|k: int|
        0 <= k < accum.len() ==> #[trigger] accum[k] == if quad_at(p, k) == q {
            (accum0[k] + weights[quarter_at(p, k)] * pre[k]) % m32()
        } else {
            accum0[k] as int
        }
    &&& forall|k: int|
        0 <= k < count.len() ==> #[trigger] count[k] == if quad_at(p, k) == q {
            (count0[k] + weights[quarter_at(p, k)]) % 0x1_0000
        } else {
            count0[k] as int
        }
}

proof fn lemma_quad(p: int, q: int, k: int)
    requires
        0 <= p < 3,
        0 <= q < 4,
        0 <= k,
    ensures
        ({
            let s = side(p);
            let off = quad_start(p, q, s);
            let j = k - off;
            &&& 0 <= off <= pels(p)
            &&& quad_at(p, k) == q <==> j >= 0 && hit(j, s, 0, 0, s / 2, s / 2)
            &&& quad_at(p, k) == q ==> quarter_at(p, k) == quarter_of(j / s, j % s, s / 4, s / 4)
        }),
{
    assert(q == 0 || q == 1 || q == 2 || q == 3);
    if p == 0 {
        let off = quad_start(0, q, 64);
        assert(off == (q / 2) * 2048 + (q % 2) * 32) by {
            assert(((q / 2) * 32) * 64 == (q / 2) * 2048);
        }
        let j = k - off;
        let r = k / 64;
        let c = k % 64;
        if quad_at(0, k) == q {
            assert(r / 32 == q / 2 && c / 32 == q % 2);
            assert(j == (r - 32 * (q / 2)) * 64 + (c - 32 * (q % 2)));
            assert(j / 64 == r - 32 * (q / 2) && j % 64 == c - 32 * (q % 2));
        }
        if j >= 0 && hit(j, 64, 0, 0, 32, 32) {
            assert(r == j / 64 + 32 * (q / 2) && c == j % 64 + 32 * (q % 2));
        }
    } else {
        let off = quad_start(p, q, 32);
        assert(off == (q / 2) * 512 + (q % 2) * 16) by {
            assert(((q / 2) * 16) * 32 == (q / 2) * 512);
        }
        let j = k - off;
        let r = k / 32;
        let c = k % 32;
        if quad_at(p, k) == q {
            assert(r / 16 == q / 2 && c / 16 == q % 2);
            assert(j == (r - 16 * (q / 2)) * 32 + (c - 16 * (q % 2)));
            assert(j / 32 == r - 16 * (q / 2) && j % 32 == c - 16 * (q % 2));
        }
        if j >= 0 && hit(j, 32, 0, 0, 16, 16) {
            assert(r == j / 32 + 16 * (q / 2) && c == j % 32 + 16 * (q % 2));
        }
    }
}

proof fn lemma_tail_added(
    weights: Seq<int>,
    pre: Seq<u8>,
    p: int,
    q: int,
    accum0: Seq<u32>,
    accum: Seq<u32>,
    count0: Seq<u16>,
    count: Seq<u16>,
    tail: Seq<u32>,
    tail_count: Seq<u16>,
)
    requires
        0 <= p < 3,
        0 <= q < 4,
        accum0.len() == 4096,
        count0.len() == 4096,
        pels(p) <= pre.len(),
        ({
            let off = quad_start(p, q, side(p));
            &&& accum == accum0.subrange(0, off) + tail
            &&& count == count0.subrange(0, off) + tail_count
            &&& block_added(
                pre.subrange(off, pre.len() as int),
                side(p),
                side(p) / 4,
                side(p) / 4,
                weights,
                accum0.subrange(off, 4096),
                tail,
                count0.subrange(off, 4096),
                tail_count,
            )
        }),
    ensures
        quad_added(weights, pre, p, q, accum0, accum, count0, count),
{
    let s = side(p);
    let off = quad_start(p, q, s);
    lemma_quad(p, q, 0);
    let pt = pre.subrange(off, pre.len() as int);
    let at = accum0.subrange(off, 4096);
    let ct = count0.subrange(off, 4096);
    assert forall|k: int| 0 <= k < accum.len() implies #[trigger] accum[k] == if quad_at(p, k) == q {
        (accum0[k] + weights[quarter_at(p, k)] * pre[k]) % m32()
    } else {
        accum0[k] as int
    } by {
        lemma_quad(p, q, k);
        if k >= off {
            let j = k - off;
            assert(accum[k] == tail[j]);
            assert(at[j] == accum0[k]);
            if quad_at(p, k) == q {
                lemma_inside(p, k);
                assert(pt[j] == pre[k]);
            }
        }
    }
    assert forall|k: int| 0 <= k < count.len() implies #[trigger] count[k] == if quad_at(p, k) == q {
        (count0[k] + weights[quarter_at(p, k)]) % 0x1_0000
    } else {
        count0[k] as int
    } by {
        lemma_quad(p, q, k);
        if k >= off {
            let j = k - off;
            assert(count[k] == tail_count[j]);
            assert(ct[j] == count0[k]);
        }
    }
}

proof fn lemma_inside(p: int, k: int)
    requires
        0 <= p < 3,
        0 <= k,
        quad_at(p, k) < 4,
    ensures
        k < pels(p),
{
    if p == 0 {
        assert((k / 64) / 32 < 2);
        assert(k < 4096);
    } else {
        assert((k / 32) / 16 < 2);
        assert(k < 1024);
    }
}


/// Where the planes of a quadrant start in the planes of the frame.
fn quad_origins(f: &TfFilter, src: &[Vec<u8>; 3], col: usize, row: usize, q: usize) -> (r: TfBlockOffsets)
    requires
        q < 4,
        holds_block(*f, *src, col as int, row as int),
    ensures
        forall|p: int|
            0 <= p < 3 && active(*f, p) ==> {
                &&& #[trigger] r.src[p] == block_start(p, col as int, row as int, f.stride[p] as int) + quad_start(
                    p,
                    q as int,
                    f.stride[p] as int,
                )
                &&& r.src[p] + (side(p) / 2 - 1) * f.stride[p] + side(p) / 2 <= src[p]@.len()
            },
        forall|p: int| 0 <= p < 3 ==> #[trigger] r.block[p] == quad_start(p, q as int, side(p)),
{
    proof {
        lemma_quad(0, q as int, 0);
        lemma_quad(1, q as int, 0);
        lemma_quad(2, q as int, 0);
        lemma_quad_inside(*f, *src, col as int, row as int, 0, q as int);
        if f.tf_chroma {
            lemma_quad_inside(*f, *src, col as int, row as int, 1, q as int);
            lemma_quad_inside(*f, *src, col as int, row as int, 2, q as int);
        }
    }
    let len0: usize = src[0].len();
    let len1: usize = src[1].len();
    let len2: usize = src[2].len();
    assert(len0 == src[0]@.len() && len1 == src[1]@.len() && len2 == src[2]@.len());
    let y: usize = block_origin(row, col, 64, f.stride[0]) + block_origin(q / 2, q % 2, 32, f.stride[0]);
    let (u, v): (usize, usize) = if f.tf_chroma {
        (
            block_origin(row, col, 32, f.stride[1]) + block_origin(q / 2, q % 2, 16, f.stride[1]),
            block_origin(row, col, 32, f.stride[2]) + block_origin(q / 2, q % 2, 16, f.stride[2]),
        )
    } else {
        (0, 0)
    };
    let b0: usize = (q / 2) * 32 * 64 + (q % 2) * 32;
    let b1: usize = (q / 2) * 16 * 32 + (q % 2) * 16;
    TfBlockOffsets { src: [y, u, v], block: [b0, b1, b1] }
}

pub(crate) fn block_origin(row: usize, col: usize, w: usize, stride: usize) -> (r: usize)
    requires
        plane_start(row as int, col as int, w as int, w as int, stride as int) <= usize::MAX,
        0 < stride,
    ensures
        r == plane_start(row as int, col as int, w as int, w as int, stride as int),
{
    proof {
        lemma_mul_nonnegative(row as int, w as int);
        lemma_mul_nonnegative(col as int, w as int);
        lemma_mul_inequality(1, stride as int, row * w);
        vstd::arithmetic::mul::lemma_mul_is_commutative(stride as int, row * w);
        lemma_mul_nonnegative(row * w, stride as int);
    }
    (row * w) * stride + col * w
}

pub proof fn lemma_quad_inside(f: TfFilter, src: [Vec<u8>; 3], col: int, row: int, p: int, q: int)
    requires
        0 <= p < 3,
        0 <= q < 4,
        active(f, p),
        holds_block(f, src, col, row),
    ensures
        0 < f.stride[p],
        0 <= block_start(p, col, row, f.stride[p] as int),
        0 <= quad_start(p, q, f.stride[p] as int),
        block_start(p, col, row, f.stride[p] as int) + quad_start(p, q, f.stride[p] as int) + (side(p) / 2 - 1)
            * f.stride[p] + side(p) / 2 <= src[p]@.len(),
        block_start(p, col, row, f.stride[p] as int) + (side(p) - 1) * f.stride[p] + side(p) <= src[p]@.len(),
        side(p) <= f.stride[p],
        block_start(p, col, row, f.stride[p] as int) + quad_start(p, q, f.stride[p] as int) <= src[p]@.len(),
{
    let st = f.stride[p] as int;
    let s = side(p);
    let o = block_start(p, col, row, st);
    assert(o + (s - 1) * st + s <= src[p]@.len());
    lemma_mul_nonnegative(col, s);
    lemma_mul_is_distributive_add_other_way(s, col, 1);
    lemma_mul_nonnegative(row, s);
    lemma_mul_nonnegative(row * s, st);
    let h = s / 2;
    assert(q == 0 || q == 1 || q == 2 || q == 3);
    assert((0 * h) * st == 0 && (1 * h) * st == h * st) by (nonlinear_arith);
    lemma_mul_nonnegative(h, st);
    lemma_mul_is_distributive_add_other_way(st, h, h - 1);
    lemma_mul_nonnegative(h - 1, st);
    lemma_mul_inequality(h - 1, s - 1, st);
}


/// The planes of a quadrant can be read.
proof fn lemma_readable(f: TfFilter, src: [Vec<u8>; 3], pred: TfPrediction, col: int, row: int, p: int, q: int)
    requires
        0 <= p < 3,
        0 <= q < 4,
        active(f, p),
        holds_block(f, src, col, row),
        pred_fits(f, src, pred, col, row),
    ensures
        quad_plane(f, src, pred, col, row, p, q).readable(),
{
    lemma_quad_inside(f, src, col, row, p, q);
    lemma_quad(p, q, 0);
    assert(q == 0 || q == 1 || q == 2 || q == 3);
    let st = f.stride[p] as int;
    let s = src[p]@;
    let r = pred.planes[p]@;
    let o = block_start(p, col, row, st) + quad_start(p, q, st);
    assert(s.subrange(o, s.len() as int).len() == s.len() - o);
    let b = quad_start(p, q, side(p));
    let plane = quad_plane(f, src, pred, col, row, p, q);
    assert(r.subrange(b, r.len() as int).len() == r.len() - b);
    if p == 0 {
        assert(b <= 32 * 64 + 32);
        assert(plane.hh == 16 && plane.hw == 16 && plane.pre_stride == 64);
    } else {
        assert(b <= 16 * 32 + 16);
        assert(plane.hh == 8 && plane.hw == 8 && plane.pre_stride == 32);
    }
}

/// Sums of a plane after one quadrant of a prediction has been added, or as
/// they were where the plane is not filtered.
pub open spec fn plane_added(
    f: TfFilter,
    src: [Vec<u8>; 3],
    pred: TfPrediction,
    at: (int, int, int),
    p: int,
    accum0: Seq<u32>,
    accum: Seq<u32>,
    count0: Seq<u16>,
    count: Seq<u16>,
) -> bool {
    if active(f, p) {
        quad_added(
            quad_weights(f, src, pred, at.0, at.1, p, at.2),
            pred.planes[p]@,
            p,
            at.2,
            accum0,
            accum,
            count0,
            count,
        )
    } else {
        accum == accum0 && count == count0
    }
}

proof fn lemma_plane_added(
    f: TfFilter,
    src: [Vec<u8>; 3],
    pred: TfPrediction,
    at: (int, int, int),
    p: int,
    accum0: Seq<u32>,
    accum: Seq<u32>,
    count0: Seq<u16>,
    count: Seq<u16>,
    tail: Seq<u32>,
    tail_count: Seq<u16>,
)
    requires
        0 <= p < 3,
        0 <= at.2 < 4,
        pred_fits(f, src, pred, at.0, at.1),
        accum0.len() == 4096,
        count0.len() == 4096,
        ({
            let off = quad_start(p, at.2, side(p));
            &&& accum == accum0.subrange(0, off) + tail
            &&& count == count0.subrange(0, off) + tail_count
            &&& tail_added(
                f,
                src,
                pred,
                at,
                p,
                accum0.subrange(off, 4096),
                tail,
                count0.subrange(off, 4096),
                tail_count,
            )
        }),
    ensures
        plane_added(f, src, pred, at, p, accum0, accum, count0, count),
{
    lemma_quad(p, at.2, 0);
    if active(f, p) {
        lemma_tail_added(
            quad_weights(f, src, pred, at.0, at.1, p, at.2),
            pred.planes[p]@,
            p,
            at.2,
            accum0,
            accum,
            count0,
            count,
            tail,
            tail_count,
        );
    } else {
        assert(accum =~= accum0);
        assert(count =~= count0);
    }
}

/// Adds one quadrant of a prediction to the sums.
fn apply_quadrant(
    f: &TfFilter,
    src: &[Vec<u8>; 3],
    pred: &TfPrediction,
    col: usize,
    row: usize,
    q: usize,
    accum: &mut [Vec<u32>; 3],
    count: &mut [Vec<u16>; 3],
)
    requires
        q < 4,
        holds_block(*f, *src, col as int, row as int),
        pred_fits(*f, *src, *pred, col as int, row as int),
        forall|p: int| 0 <= p < 3 ==> (#[trigger] old(accum)[p])@.len() == 4096,
        forall|p: int| 0 <= p < 3 ==> (#[trigger] old(count)[p])@.len() == 4096,
    ensures
        forall|p: int| #![trigger final(accum)[p]] #![trigger final(count)[p]]
            0 <= p < 3 ==> plane_added(
                *f,
                *src,
                *pred,
                (col as int, row as int, q as int),
                p,
                old(accum)[p]@,
                final(accum)[p]@,
                old(count)[p]@,
                final(count)[p]@,
            ),
{
    let ghost accum0 = *accum;
    let ghost count0 = *count;
    let ghost at = (col as int, row as int, q as int);
    let o: TfBlockOffsets = quad_origins(f, src, col, row, q);
    let ctx: TfKernelCtx = pred.state.kernel_ctx((q % 2) as i32, (q / 2) as i32, f.tf_mv_dist_th, f.tf_chroma, f.decay);
    let (b0, b1, b2): (usize, usize, usize) = (o.block[0], o.block[1], o.block[2]);
    proof {
        assert(ctx == quad_ctx(*f, *pred, at.2));
        lemma_quad(0, at.2, 0);
        lemma_quad(1, at.2, 0);
        assert(b0 == quad_start(0, at.2, 64));
        assert(b1 == quad_start(1, at.2, 32));
        assert(b2 == quad_start(2, at.2, 32));
        assert(accum[0]@.len() == 4096 && accum[1]@.len() == 4096 && accum[2]@.len() == 4096);
        assert(count[0]@.len() == 4096 && count[1]@.len() == 4096 && count[2]@.len() == 4096);
    }
    let mut ya: Vec<u32> = accum[0].split_off(b0);
    let mut yc: Vec<u16> = count[0].split_off(b0);
    let mut ua: Vec<u32> = accum[1].split_off(b1);
    let mut uc: Vec<u16> = count[1].split_off(b1);
    let mut va: Vec<u32> = accum[2].split_off(b2);
    let mut vc: Vec<u16> = count[2].split_off(b2);
    add_tails(f, src, pred, &o, &ctx, Ghost(at), &mut ya, &mut yc, &mut ua, &mut uc, &mut va, &mut vc);
    let ghost ta = (ya@, ua@, va@);
    let ghost tc = (yc@, uc@, vc@);
    accum[0].append(&mut ya);
    count[0].append(&mut yc);
    accum[1].append(&mut ua);
    count[1].append(&mut uc);
    accum[2].append(&mut va);
    count[2].append(&mut vc);
    proof {
        lemma_plane_added(*f, *src, *pred, at, 0, accum0[0]@, accum[0]@, count0[0]@, count[0]@, ta.0, tc.0);
        lemma_plane_added(*f, *src, *pred, at, 1, accum0[1]@, accum[1]@, count0[1]@, count[1]@, ta.1, tc.1);
        lemma_plane_added(*f, *src, *pred, at, 2, accum0[2]@, accum[2]@, count0[2]@, count[2]@, ta.2, tc.2);
    }
}

/// The sums of a plane from a quadrant on, after the quadrant has been added.
pub open spec fn tail_added(
    f: TfFilter,
    src: [Vec<u8>; 3],
    pred: TfPrediction,
    at: (int, int, int),
    p: int,
    accum0: Seq<u32>,
    accum: Seq<u32>,
    count0: Seq<u16>,
    count: Seq<u16>,
) -> bool {
    let r = pred.planes[p]@;
    if active(f, p) {
        block_added(
            r.subrange(quad_start(p, at.2, side(p)), r.len() as int),
            side(p),
            side(p) / 4,
            side(p) / 4,
            quad_weights(f, src, pred, at.0, at.1, p, at.2),
            accum0,
            accum,
            count0,
            count,
        )
    } else {
        accum == accum0 && count == count0
    }
}

proof fn lemma_ok(
    f: TfFilter,
    src: [Vec<u8>; 3],
    pred: TfPrediction,
    at: (int, int, int),
    p: int,
    accum: Seq<u32>,
    count: Seq<u16>,
)
    requires
        0 <= p < 3,
        0 <= at.2 < 4,
        active(f, p),
        holds_block(f, src, at.0, at.1),
        pred_fits(f, src, pred, at.0, at.1),
        accum.len() == 4096 - quad_start(p, at.2, side(p)),
        count.len() == 4096 - quad_start(p, at.2, side(p)),
    ensures
        quad_plane(f, src, pred, at.0, at.1, p, at.2).ok(
            quad_ctx(f, pred, at.2),
            quad_luma(f, src, pred, at.0, at.1, p, at.2),
            accum,
            count,
        ),
{
    let plane = quad_plane(f, src, pred, at.0, at.1, p, at.2);
    let ctx = quad_ctx(f, pred, at.2);
    lemma_readable(f, src, pred, at.0, at.1, p, at.2);
    assert(quad_fits(f, src, pred, at.0, at.1, p, at.2));
    lemma_quad_room(p, at.2);
    assert(plane.hh == side(p) / 4 && plane.hw == side(p) / 4 && plane.pre_stride == side(p));
    assert((2 * plane.hh - 1) * plane.pre_stride + 2 * plane.hw <= accum.len());
    lemma_motion_ok(f, src, pred, at);
}

proof fn lemma_quad_room(p: int, q: int)
    requires
        0 <= p < 3,
        0 <= q < 4,
    ensures
        quad_start(p, q, side(p)) + (2 * (side(p) / 4) - 1) * side(p) + 2 * (side(p) / 4) <= pels(p) <= 4096,
{
    assert(q == 0 || q == 1 || q == 2 || q == 3);
    if p == 0 {
        assert(quad_start(p, q, 64) <= 32 * 64 + 32);
        assert((2 * (64int / 4) - 1) * 64 + 2 * (64int / 4) == 2016);
    } else {
        assert(quad_start(p, q, 32) <= 16 * 32 + 16);
        assert((2 * (32int / 4) - 1) * 32 + 2 * (32int / 4) == 496);
    }
}

proof fn lemma_motion_ok(f: TfFilter, src: [Vec<u8>; 3], pred: TfPrediction, at: (int, int, int))
    requires
        0 <= at.2 < 4,
        pred_fits(f, src, pred, at.0, at.1),
    ensures
        0 <= block_index(quad_ctx(f, pred, at.2)) < 4,
        0 <= quad_ctx(f, pred, at.2).tf_block_row <= 1,
        motion_ok(quad_ctx(f, pred, at.2), block_index(quad_ctx(f, pred, at.2))),
{
}

fn add_tails(
    f: &TfFilter,
    src: &[Vec<u8>; 3],
    pred: &TfPrediction,
    o: &TfBlockOffsets,
    ctx: &TfKernelCtx,
    Ghost(at): Ghost<(int, int, int)>,
    ya: &mut Vec<u32>,
    yc: &mut Vec<u16>,
    ua: &mut Vec<u32>,
    uc: &mut Vec<u16>,
    va: &mut Vec<u32>,
    vc: &mut Vec<u16>,
)
    requires
        0 <= at.2 < 4,
        holds_block(*f, *src, at.0, at.1),
        pred_fits(*f, *src, *pred, at.0, at.1),
        *ctx == quad_ctx(*f, *pred, at.2),
        forall|p: int|
            0 <= p < 3 && active(*f, p) ==> #[trigger] o.src[p] == block_start(p, at.0, at.1, f.stride[p] as int)
                + quad_start(p, at.2, f.stride[p] as int),
        forall|p: int| 0 <= p < 3 ==> #[trigger] o.block[p] == quad_start(p, at.2, side(p)),
        old(ya)@.len() == 4096 - o.block[0],
        old(yc)@.len() == 4096 - o.block[0],
        old(ua)@.len() == 4096 - o.block[1],
        old(uc)@.len() == 4096 - o.block[1],
        old(va)@.len() == 4096 - o.block[2],
        old(vc)@.len() == 4096 - o.block[2],
    ensures
        tail_added(*f, *src, *pred, at, 0, old(ya)@, final(ya)@, old(yc)@, final(yc)@),
        tail_added(*f, *src, *pred, at, 1, old(ua)@, final(ua)@, old(uc)@, final(uc)@),
        tail_added(*f, *src, *pred, at, 2, old(va)@, final(va)@, old(vc)@, final(vc)@),
{
    proof {
        reveal(quad_weights);
        lemma_quad_inside(*f, *src, at.0, at.1, 0, at.2);
        lemma_quad(0, at.2, 0);
        lemma_quad(1, at.2, 0);
        lemma_quad(2, at.2, 0);
        lemma_ok(*f, *src, *pred, at, 0, ya@, yc@);
        if f.tf_chroma {
            lemma_quad_inside(*f, *src, at.0, at.1, 1, at.2);
            lemma_quad_inside(*f, *src, at.0, at.1, 2, at.2);
            lemma_ok(*f, *src, *pred, at, 1, ua@, uc@);
            lemma_ok(*f, *src, *pred, at, 2, va@, vc@);
        }
        assert(o.src[0] == block_start(0, at.0, at.1, f.stride[0] as int) + quad_start(0, at.2, f.stride[0] as int));
    }
    let (su, sv, bu, bv): (usize, usize, usize, usize) = if f.tf_chroma {
        (o.src[1], o.src[2], o.block[1], o.block[2])
    } else {
        (0, 0, 0, 0)
    };
    let y_src: &[u8] = slice_subrange(src[0].as_slice(), o.src[0], src[0].len());
    let u_src: &[u8] = slice_subrange(src[1].as_slice(), su, src[1].len());
    let v_src: &[u8] = slice_subrange(src[2].as_slice(), sv, src[2].len());
    let y_pre: &[u8] = slice_subrange(pred.planes[0].as_slice(), o.block[0], pred.planes[0].len());
    let u_pre: &[u8] = slice_subrange(pred.planes[1].as_slice(), bu, pred.planes[1].len());
    let v_pre: &[u8] = slice_subrange(pred.planes[2].as_slice(), bv, pred.planes[2].len());
    proof {
        lemma_kernel_planes(*f, *src, *pred, at, y_src@, u_src@, v_src@, y_pre@, u_pre@, v_pre@);
    }
    apply_temporal_filter_planewise_medium(
        ctx,
        y_src,
        f.stride[0],
        y_pre,
        64,
        u_src,
        v_src,
        f.stride[1],
        u_pre,
        v_pre,
        32,
        32,
        32,
        1,
        1,
        ya.as_mut_slice(),
        yc.as_mut_slice(),
        ua.as_mut_slice(),
        uc.as_mut_slice(),
        va.as_mut_slice(),
        vc.as_mut_slice(),
    );
}

proof fn lemma_kernel_planes(
    f: TfFilter,
    src: [Vec<u8>; 3],
    pred: TfPrediction,
    at: (int, int, int),
    y_src: Seq<u8>,
    u_src: Seq<u8>,
    v_src: Seq<u8>,
    y_pre: Seq<u8>,
    u_pre: Seq<u8>,
    v_pre: Seq<u8>,
)
    requires
        f.tf_chroma ==> f.stride[2] == f.stride[1],
        ({
            let o = |p: int| block_start(p, at.0, at.1, f.stride[p] as int) + quad_start(p, at.2, f.stride[p] as int);
            let b = |p: int| quad_start(p, at.2, side(p));
            &&& y_src == src[0]@.subrange(o(0), src[0]@.len() as int)
            &&& y_pre == pred.planes[0]@.subrange(b(0), pred.planes[0]@.len() as int)
            &&& f.tf_chroma ==> {
                &&& u_src == src[1]@.subrange(o(1), src[1]@.len() as int)
                &&& v_src == src[2]@.subrange(o(2), src[2]@.len() as int)
                &&& u_pre == pred.planes[1]@.subrange(b(1), pred.planes[1]@.len() as int)
                &&& v_pre == pred.planes[2]@.subrange(b(2), pred.planes[2]@.len() as int)
            }
        }),
    ensures
        chroma(32, 1) == 16,
        plane_in(y_src, f.stride[0], y_pre, 64, 32, 32, f.decay[0], false, 8, false) == quad_plane(
            f,
            src,
            pred,
            at.0,
            at.1,
            0,
            at.2,
        ),
        f.tf_chroma ==> plane_in(u_src, f.stride[1], u_pre, 32, 16, 16, f.decay[1], true, 8, false) == quad_plane(
            f,
            src,
            pred,
            at.0,
            at.1,
            1,
            at.2,
        ),
        f.tf_chroma ==> plane_in(v_src, f.stride[1], v_pre, 32, 16, 16, f.decay[2], true, 8, false) == quad_plane(
            f,
            src,
            pred,
            at.0,
            at.1,
            2,
            at.2,
        ),
{
    assert(vstd::arithmetic::power2::pow2(1) == 2) by {
        vstd::arithmetic::power2::lemma2_to64();
    }
}


/// Sample `k` of a block of the frame.
pub open spec fn centre_at(f: TfFilter, src: [Vec<u8>; 3], col: int, row: int, p: int, k: int) -> int {
    let stride = f.stride[p] as int;
    src[p]@[block_start(p, col, row, stride) + (k / side(p)) * stride + k % side(p)] as int
}

/// What each prediction adds to the sum of sample `k`.
pub open spec fn sum_terms(
    f: TfFilter,
    src: [Vec<u8>; 3],
    preds: Seq<TfPrediction>,
    col: int,
    row: int,
    p: int,
    k: int,
) -> spec_fn(int) -> int {
    |i: int| weight_at(f, src, preds[i], col, row, p, k) * preds[i].planes[p]@[k]
}

/// What each prediction adds to the weight of sample `k`.
pub open spec fn weight_terms(
    f: TfFilter,
    src: [Vec<u8>; 3],
    preds: Seq<TfPrediction>,
    col: int,
    row: int,
    p: int,
    k: int,
) -> spec_fn(int) -> int {
    |i: int| weight_at(f, src, preds[i], col, row, p, k)
}

/// Weighted sum of sample `k` with the first `n` predictions.
pub open spec fn sum_at(
    f: TfFilter,
    src: [Vec<u8>; 3],
    preds: Seq<TfPrediction>,
    col: int,
    row: int,
    p: int,
    k: int,
    n: int,
) -> int {
    1000 * centre_at(f, src, col, row, p, k) + total(sum_terms(f, src, preds, col, row, p, k), n)
}

/// Weight of sample `k` with the first `n` predictions.
pub open spec fn total_weight_at(
    f: TfFilter,
    src: [Vec<u8>; 3],
    preds: Seq<TfPrediction>,
    col: int,
    row: int,
    p: int,
    k: int,
    n: int,
) -> int {
    1000 + total(weight_terms(f, src, preds, col, row, p, k), n)
}

/// Sample `k` of the filtered block: the weighted mean of the frame and its
/// predictions.
pub open spec fn mean_at(
    f: TfFilter,
    src: [Vec<u8>; 3],
    preds: Seq<TfPrediction>,
    col: int,
    row: int,
    p: int,
    k: int,
) -> int {
    weighted_mean(
        sum_at(f, src, preds, col, row, p, k, preds.len() as int),
        total_weight_at(f, src, preds, col, row, p, k, preds.len() as int),
    )
}

proof fn lemma_window_error_range(
    src: Seq<u8>,
    src_stride: int,
    pre: Seq<u8>,
    pre_stride: int,
    hw: int,
    hh: int,
    shift: nat,
    q: int,
)
    requires
        0 < hw,
        0 < hh,
    ensures
        0 <= window_error(src, src_stride, pre, pre_stride, hw, hh, shift, q),
{
    let sum = total(
        error_terms(
            src,
            quarter_start(q, src_stride, hw, hh),
            src_stride,
            pre,
            quarter_start(q, pre_stride, hw, hh),
            pre_stride,
            hw,
        ),
        hw * hh,
    ) % m32();
    vstd::arithmetic::power2::lemma_pow2_pos(shift);
    lemma_div_pos_is_pos(sum, vstd::arithmetic::power2::pow2(shift) as int);
    let e = crate::arith::shr_int(sum, shift);
    lemma_div_pos_is_pos((e * 16) % m32(), hw);
    lemma_div_pos_is_pos(((((e * 16) % m32()) / hw) * 16) % m32(), hh);
}

proof fn lemma_plane_weight(plane: PlaneIn<u8>, ctx: TfKernelCtx, luma: Seq<u32>, t: int)
    requires
        0 < plane.hw,
        0 < plane.hh,
        0 <= plane.decay,
    ensures
        0 <= plane.weight(ctx, luma, t) <= 1000,
{
    lemma_window_error_range(
        plane.src,
        plane.src_stride,
        plane.pre,
        plane.pre_stride,
        plane.hw,
        plane.hh,
        plane.shift,
        t,
    );
    let idx = block_index(ctx);
    assert(0 <= plane.error(luma, t));
    assert(0 <= quad_block_error(ctx, idx, t, plane.wide));
    assert(0 <= quad_motion(ctx, idx, t));
    assert(0 <= decay_used(ctx, idx, plane.decay));
    weights_stay_in_range(
        plane.error(luma, t),
        quad_block_error(ctx, idx, t, plane.wide),
        quad_motion(ctx, idx, t),
        decay_used(ctx, idx, plane.decay),
    );
}

/// Weights lie between zero and full weight.
pub proof fn lemma_weight_range(f: TfFilter, src: [Vec<u8>; 3], pred: TfPrediction, col: int, row: int, p: int, k: int)
    requires
        0 <= p < 3,
        0 <= k < pels(p),
    ensures
        0 <= quad_at(p, k) < 4,
        0 <= quarter_at(p, k) < 4,
        0 <= weight_at(f, src, pred, col, row, p, k) <= 1000,
{
    lemma_places(p, k);
    let q = quad_at(p, k);
    let t = quarter_at(p, k);
    let plane = quad_plane(f, src, pred, col, row, p, q);
    let ctx = quad_ctx(f, pred, q);
    let luma = quad_luma(f, src, pred, col, row, p, q);
    lemma_plane_weight(plane, ctx, luma, t);
    lemma_weights_entry(plane, ctx, luma, t);
    assert(quad_weights(f, src, pred, col, row, p, q) == plane.weights(ctx, luma)) by {
        reveal(quad_weights);
    }
}

proof fn lemma_weights_entry(plane: PlaneIn<u8>, ctx: TfKernelCtx, luma: Seq<u32>, t: int)
    requires
        0 <= t < 4,
    ensures
        plane.weights(ctx, luma)[t] == plane.weight(ctx, luma, t),
{
    assert(t == 0 || t == 1 || t == 2 || t == 3);
}

proof fn lemma_places(p: int, k: int)
    requires
        0 <= p < 3,
        0 <= k < pels(p),
    ensures
        0 <= quad_at(p, k) < 4,
        0 <= quarter_at(p, k) < 4,
{
    if p == 0 {
        assert(k < 4096);
        assert(0 <= (k / 64) / 32 < 2);
        assert(0 <= (k % 64) / 32 < 2);
        assert(0 <= ((k / 64) % 32) / 16 < 2);
        assert(0 <= ((k % 64) % 32) / 16 < 2);
    } else {
        assert(k < 1024);
        assert(0 <= (k / 32) / 16 < 2);
        assert(0 <= (k % 32) / 16 < 2);
        assert(0 <= ((k / 32) % 16) / 8 < 2);
        assert(0 <= ((k % 32) % 16) / 8 < 2);
    }
}

/// The sums stay in range: the weight between full weight and that of all
/// predictions at full weight, and the mean in the range of a sample.
pub proof fn lemma_sums_range(
    f: TfFilter,
    src: [Vec<u8>; 3],
    preds: Seq<TfPrediction>,
    col: int,
    row: int,
    p: int,
    k: int,
    n: int,
)
    requires
        0 <= p < 3,
        0 <= k < pels(p),
        0 <= n <= preds.len(),
    ensures
        1000 <= total_weight_at(f, src, preds, col, row, p, k, n) <= 1000 * (n + 1),
        0 <= sum_at(f, src, preds, col, row, p, k, n) <= 255 * total_weight_at(f, src, preds, col, row, p, k, n),
    decreases n,
{
    if n > 0 {
        lemma_sums_range(f, src, preds, col, row, p, k, n - 1);
        lemma_weight_range(f, src, preds[n - 1], col, row, p, k);
        let w = weight_at(f, src, preds[n - 1], col, row, p, k);
        let v = preds[n - 1].planes[p]@[k] as int;
        assert(0 <= w * v <= 255 * w) by (nonlinear_arith)
            requires
                0 <= w,
                0 <= v <= 255,
        ;
        assert(sum_terms(f, src, preds, col, row, p, k)(n - 1) == w * v);
        assert(weight_terms(f, src, preds, col, row, p, k)(n - 1) == w);
    }
}

/// The sums of a block with the first `n` predictions, and one more in the
/// first `m` quadrants.
pub open spec fn sums_are(
    f: TfFilter,
    src: [Vec<u8>; 3],
    preds: Seq<TfPrediction>,
    col: int,
    row: int,
    n: int,
    m: int,
    accum: [Vec<u32>; 3],
    count: [Vec<u16>; 3],
) -> bool {
    &&& forall|p: int| 0 <= p < 3 ==> (#[trigger] accum[p])@.len() == 4096
    &&& forall|p: int| 0 <= p < 3 ==> (#[trigger] count[p])@.len() == 4096
    &&& forall|p: int, k: int|
        0 <= p < 3 && active(f, p) && 0 <= k < pels(p) ==> #[trigger] sample_is(
            f,
            src,
            preds,
            col,
            row,
            p,
            k,
            n,
            m,
            accum[p]@,
            count[p]@,
        )
}

/// Sum and weight of sample `k` with the first `n` predictions, and one more
/// in the first `m` quadrants.
pub open spec fn sample_is(
    f: TfFilter,
    src: [Vec<u8>; 3],
    preds: Seq<TfPrediction>,
    col: int,
    row: int,
    p: int,
    k: int,
    n: int,
    m: int,
    accum: Seq<u32>,
    count: Seq<u16>,
) -> bool {
    let used = if quad_at(p, k) < m {
        n + 1
    } else {
        n
    };
    &&& accum[k] == sum_at(f, src, preds, col, row, p, k, used)
    &&& count[k] == total_weight_at(f, src, preds, col, row, p, k, used)
}

proof fn lemma_sample_step(
    f: TfFilter,
    src: [Vec<u8>; 3],
    preds: Seq<TfPrediction>,
    at: (int, int, int),
    p: int,
    k: int,
    n: int,
    accum0: Seq<u32>,
    accum: Seq<u32>,
    count0: Seq<u16>,
    count: Seq<u16>,
)
    requires
        0 <= p < 3,
        active(f, p),
        0 <= k < pels(p),
        0 <= n < preds.len() <= 64,
        accum0.len() == 4096,
        count0.len() == 4096,
        sample_is(f, src, preds, at.0, at.1, p, k, n, at.2, accum0, count0),
        plane_added(f, src, preds[n], at, p, accum0, accum, count0, count),
    ensures
        sample_is(f, src, preds, at.0, at.1, p, k, n, at.2 + 1, accum, count),
{
    assert(accum[k] == if quad_at(p, k) == at.2 {
        (accum0[k] + quad_weights(f, src, preds[n], at.0, at.1, p, at.2)[quarter_at(p, k)] * preds[n].planes[p]@[k])
            % m32()
    } else {
        accum0[k] as int
    });
    assert(count[k] == if quad_at(p, k) == at.2 {
        (count0[k] + quad_weights(f, src, preds[n], at.0, at.1, p, at.2)[quarter_at(p, k)]) % 0x1_0000
    } else {
        count0[k] as int
    });
    if quad_at(p, k) == at.2 {
        lemma_sums_range(f, src, preds, at.0, at.1, p, k, n + 1);
        let w = weight_at(f, src, preds[n], at.0, at.1, p, k);
        let v = preds[n].planes[p]@[k] as int;
        assert(sum_terms(f, src, preds, at.0, at.1, p, k)(n) == w * v);
        assert(weight_terms(f, src, preds, at.0, at.1, p, k)(n) == w);
        assert(sum_at(f, src, preds, at.0, at.1, p, k, n + 1) == accum0[k] + w * v);
        assert(total_weight_at(f, src, preds, at.0, at.1, p, k, n + 1) == count0[k] + w);
    }
}

/// Adds a prediction to the sums of a block.
pub(crate) fn add_prediction(
    f: &TfFilter,
    src: &[Vec<u8>; 3],
    pred: &TfPrediction,
    col: usize,
    row: usize,
    accum: &mut [Vec<u32>; 3],
    count: &mut [Vec<u16>; 3],
    Ghost(preds): Ghost<Seq<TfPrediction>>,
    Ghost(n): Ghost<int>,
)
    requires
        0 <= n < preds.len() <= 64,
        preds[n] == *pred,
        holds_block(*f, *src, col as int, row as int),
        pred_fits(*f, *src, *pred, col as int, row as int),
        sums_are(*f, *src, preds, col as int, row as int, n, 0, *old(accum), *old(count)),
    ensures
        sums_are(*f, *src, preds, col as int, row as int, n + 1, 0, *final(accum), *final(count)),
{
    let mut q: usize = 0;
    while q < 4
        invariant
            q <= 4,
            0 <= n < preds.len() <= 64,
            preds[n] == *pred,
            holds_block(*f, *src, col as int, row as int),
            pred_fits(*f, *src, *pred, col as int, row as int),
            sums_are(*f, *src, preds, col as int, row as int, n, q as int, *accum, *count),
        decreases 4 - q,
    {
        let ghost accum0 = *accum;
        let ghost count0 = *count;
        let ghost at = (col as int, row as int, q as int);
        apply_quadrant(f, src, pred, col, row, q, accum, count);
        proof {
            assert forall|p: int, k: int|
                0 <= p < 3 && active(*f, p) && 0 <= k < pels(p) implies #[trigger] sample_is(
                *f,
                *src,
                preds,
                at.0,
                at.1,
                p,
                k,
                n,
                q + 1,
                accum[p]@,
                count[p]@,
            ) by {
                assert(sample_is(*f, *src, preds, at.0, at.1, p, k, n, at.2, accum0[p]@, count0[p]@));
                assert(accum0[p]@.len() == 4096 && count0[p]@.len() == 4096);
                lemma_sample_step(
                    *f,
                    *src,
                    preds,
                    at,
                    p,
                    k,
                    n,
                    accum0[p]@,
                    accum[p]@,
                    count0[p]@,
                    count[p]@,
                );
            }
            assert forall|p: int| 0 <= p < 3 implies (#[trigger] accum[p])@.len() == 4096 by {
                assert(accum0[p]@.len() == 4096);
            }
            assert forall|p: int| 0 <= p < 3 implies (#[trigger] count[p])@.len() == 4096 by {
                assert(count0[p]@.len() == 4096);
            }
        }
        q = q + 1;
    }
    proof {
        assert forall|p: int, k: int|
            0 <= p < 3 && active(*f, p) && 0 <= k < pels(p) implies #[trigger] sample_is(
            *f,
            *src,
            preds,
            col as int,
            row as int,
            p,
            k,
            n + 1,
            0,
            accum[p]@,
            count[p]@,
        ) by {
            lemma_places(p, k);
            assert(sample_is(*f, *src, preds, col as int, row as int, p, k, n, 4, accum[p]@, count[p]@));
        }
    }
}

} // verus!