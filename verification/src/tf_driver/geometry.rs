//! Where the parts of a block lie: in its planes, in the search, and from the
//! edges of the picture.

use vstd::arithmetic::div_mod::lemma_fundamental_div_mod_converse;
use vstd::prelude::*;

use crate::temporal_filtering::blocks::TfPredictionRequest;
use crate::temporal_filtering::kernels::quarter_of;
use crate::temporal_filtering::strength::chroma_noisy;
use crate::temporal_filtering::subpel::{block_pair, skips, step_params, Best, TfSubpelSearchParams};
use crate::tf_driver::accumulate::{
    centre_at, quad_at, quarter_at, side, sum_at, total_weight_at, weight_at, TfFilter, TfPrediction,
};
use crate::tf_driver::block::{block_edges, search_target, TfBlockSettings};
use crate::tf_driver::frame::{block_grid, place_at};
use crate::tf_driver::ladder::{
    best16, best32, best64, best8, block_decided, eighths, Refinery, TfLadderCtrls, TfMotion, TfSearchState,
};
use crate::tf_driver::setup::RaTfScs;
use crate::tf_driver::predict::{plane_request, request_planes};

verus! {

/// The parts of a block are refined where they lie in it: 32x32 and 16x16 parts
/// are counted in two rows of two, the 16x16 parts of each 32x32 part in two
/// rows of two again, and 8x8 parts within those. 8x8 parts start from the
/// vector at their place in the block.
pub proof fn parts_are_refined_where_they_lie(m: TfMotion, refine: Refinery, i: int, j: int, k: int)
    requires
        0 <= i < 4,
        0 <= j < 4,
        0 <= k < 4,
    ensures
        ({
            let x = |n: int| if n == 1 || n == 3 {
                1int
            } else {
                0
            };
            let y = |n: int| if n >= 2 {
                1int
            } else {
                0
            };
            let (x16, y16) = (2 * x(i) + x(j), 2 * y(i) + y(j));
            let (x8, y8) = (2 * x16 + x(k), 2 * y16 + y(k));
            &&& best32(m, refine, i) == (refine.best)(32, x(i), y(i), m.mv_32x32_x[i], m.mv_32x32_y[i])
            &&& best16(m, refine, 4 * i + j) == (refine.best)(
                16,
                x16,
                y16,
                m.mv_16x16_x[4 * i + j],
                m.mv_16x16_y[4 * i + j],
            )
            &&& best8(m, refine, 16 * i + 4 * j + k) == (refine.best)(
                8,
                x8,
                y8,
                m.mv_8x8_x[8 * y8 + x8],
                m.mv_8x8_y[8 * y8 + x8],
            )
        }),
{
    assert((4 * i + j) / 4 == i && (4 * i + j) % 4 == j);
    let n = 16 * i + 4 * j + k;
    assert(n / 16 == i && (n / 4) % 4 == j && n % 4 == k);
}

/// A block that is only ever predicted as a whole starts from the coarse
/// search, others from the fine one.
pub proof fn whole_blocks_start_from_the_coarse_search(m: TfMotion, c: TfLadderCtrls, refine: Refinery)
    ensures
        c.use_pred_64x64_only_th == 255 ==> best64(m, c, refine) == (refine.best)(64, 0, 0, m.hme_x, m.hme_y),
        c.use_pred_64x64_only_th < 255 ==> best64(m, c, refine) == (refine.best)(64, 0, 0, m.mv_64x64_x, m.mv_64x64_y),
{
}

/// A 32x32 part whose error is below the threshold is not split, whatever its
/// parts would have been.
pub proof fn good_parts_are_not_split(
    before: TfSearchState,
    after: TfSearchState,
    m: TfMotion,
    c: TfLadderCtrls,
    refine: Refinery,
    i: int,
    j: int,
)
    requires
        block_decided(before, after, m, c, refine, i),
        0 <= i < 4,
        0 <= j < 4,
        best32(m, refine, i).dist < c.pred_error_32x32_th,
    ensures
        after.split_32x32[i] == 0,
        after.split_16x16[i][j] == 0,
{
}

/// A vector in whole samples is eight times as many eighths.
pub proof fn whole_samples_are_eight_eighths(v: i16)
    requires
        -4096 <= v < 4096,
    ensures
        eighths(v) == 8 * v,
{
}

/// The distances of a block to the edges of the picture are in eighths of a
/// sample: to the left and above to where the picture starts, to the right and
/// below from where the block ends.
pub proof fn edges_are_in_eighths(b: TfSubpelSearchParams, s: TfBlockSettings)
    requires
        b.pu_origin_x % 4 == 0,
        b.pu_origin_y % 4 == 0,
        b.bsize == 8 || b.bsize == 16 || b.bsize == 32 || b.bsize == 64,
        0 <= s.mi_cols <= 0x4000,
        0 <= s.mi_rows <= 0x4000,
    ensures
        ({
            let e = block_edges(b, s);
            &&& e.left == -8 * b.pu_origin_x
            &&& e.top == -8 * b.pu_origin_y
            &&& e.right == 8 * (4 * s.mi_cols - b.bsize - b.pu_origin_x)
            &&& e.bottom == 8 * (4 * s.mi_rows - b.bsize - b.pu_origin_y)
        }),
{
}

/// A part of a block lies its place times its size from the start of the block;
/// parts of 32x32 and more are interpolated with two taps where that is asked
/// for, smaller ones never.
pub proof fn targets_lie_in_their_block(s: TfBlockSettings, size: u32, x: u32, y: u32, sb_x: u32, sb_y: u32)
    requires
        size == 8 || size == 16 || size == 32 || size == 64,
        x * size < 64,
        y * size < 64,
        sb_x < 0xffc0,
        sb_y < 0xffc0,
    ensures
        ({
            let t = search_target(s, size, x, y, sb_x, sb_y);
            &&& t.pu_origin_x == sb_x + x * size
            &&& t.pu_origin_y == sb_y + y * size
            &&& t.local_origin_x == x * size
            &&& t.local_origin_y == y * size
            &&& t.bsize == size
            &&& t.interp_filters == (if s.subpel.use_2tap && size > 16 {
                s.two_tap_filters
            } else {
                s.regular_filters
            })
        }),
{
    assert(x * size >= 0 && y * size >= 0) by (nonlinear_arith)
        requires
            x >= 0,
            y >= 0,
            size >= 0,
    ;
}

/// Chroma is asked for at half the place and half the size of luma, with the
/// same vector and the same edges, and only where it is filtered.
pub proof fn chroma_is_asked_for_at_half_the_size(req: TfPredictionRequest, p: usize, sb: int, cols: int, rows: int)
    requires
        p == 1 || p == 2,
        req.local_origin_x < 64,
        req.local_origin_y < 64,
        req.local_origin_x % 8 == 0,
        req.local_origin_y % 8 == 0,
        req.pu_origin_x % 8 == 0,
        req.pu_origin_y % 8 == 0,
        req.bsize == 8 || req.bsize == 16 || req.bsize == 32 || req.bsize == 64,
        sb == 64,
    ensures
        ({
            let luma = plane_request(req, 0, sb, cols, rows);
            let chroma = plane_request(req, p, sb, cols, rows);
            &&& luma.x == req.pu_origin_x && luma.y == req.pu_origin_y
            &&& luma.size == req.bsize
            &&& luma.dst == 64 * req.local_origin_y + req.local_origin_x
            &&& 2 * chroma.x == luma.x && 2 * chroma.y == luma.y
            &&& 2 * chroma.size == luma.size
            &&& 2 * chroma.dst == 32 * req.local_origin_y + req.local_origin_x
            &&& luma.dst_stride == 64 && chroma.dst_stride == 32
            &&& chroma.mv == luma.mv && chroma.edges == luma.edges
            &&& luma.mv.x == req.mv_x && luma.mv.y == req.mv_y
            &&& request_planes(req, false, sb, cols, rows).len() == 1
            &&& request_planes(req, true, sb, cols, rows).len() == 3
            &&& request_planes(req, true, sb, cols, rows)[p as int] == chroma
            &&& request_planes(req, true, sb, cols, rows)[0] == luma
        }),
{
    let y = req.local_origin_y as int;
    assert((y / 1) * (64int / 1) == 64 * y);
    assert((y / 2) * (64int / 2) == 32 * (y / 2));
}

/// A sample of a block belongs to the quadrant and the quarter that its row and
/// column lie in, counted in rows of two.
pub proof fn samples_belong_to_their_quarter(p: int, r: int, c: int)
    requires
        0 <= p < 3,
        0 <= r < side(p),
        0 <= c < side(p),
    ensures
        ({
            let s: int = if p == 0 {
                64
            } else {
                32
            };
            let half = |v: int| if 2 * v >= s {
                1int
            } else {
                0
            };
            let rest = |v: int| if 2 * v >= s {
                2 * v - s
            } else {
                2 * v
            };
            &&& s == side(p)
            &&& quad_at(p, r * s + c) == 2 * half(r) + half(c)
            &&& quarter_at(p, r * s + c) == 2 * half(rest(r)) + half(rest(c))
        }),
{
    let s = side(p);
    lemma_fundamental_div_mod_converse(r * s + c, s, r, c);
    if p == 0 {
        assert(s == 64);
        assert(r / 32 == if r >= 32 { 1int } else { 0 });
        assert(c / 32 == if c >= 32 { 1int } else { 0 });
    } else {
        assert(s == 32);
        assert(r / 16 == if r >= 16 { 1int } else { 0 });
        assert(c / 16 == if c >= 16 { 1int } else { 0 });
    }
}

/// The samples of the frame are read from its planes: blocks of 64 samples in
/// luma and 32 in chroma lie side by side.
pub proof fn the_frame_is_read_in_place(f: TfFilter, src: [Vec<u8>; 3], col: int, row: int, p: int, r: int, c: int)
    requires
        0 <= p < 3,
        0 <= r < side(p),
        0 <= c < side(p),
    ensures
        ({
            let s: int = if p == 0 {
                64
            } else {
                32
            };
            centre_at(f, src, col, row, p, r * s + c) == src[p]@[(row * s + r) * f.stride[p] + (col * s + c)]
        }),
{
    let s = side(p);
    lemma_fundamental_div_mod_converse(r * s + c, s, r, c);
    let st = f.stride[p] as int;
    assert((row * s + r) * st == row * s * st + r * st) by (nonlinear_arith);
}

/// The frame itself counts with a weight of 1000, and every prediction adds its
/// sample as often as its weight says.
pub proof fn predictions_add_their_weight(
    f: TfFilter,
    src: [Vec<u8>; 3],
    preds: Seq<TfPrediction>,
    col: int,
    row: int,
    p: int,
    k: int,
    n: int,
)
    requires
        0 <= n,
    ensures
        sum_at(f, src, preds, col, row, p, k, 0) == 1000 * centre_at(f, src, col, row, p, k),
        total_weight_at(f, src, preds, col, row, p, k, 0) == 1000,
        ({
            let w = weight_at(f, src, preds[n], col, row, p, k);
            &&& sum_at(f, src, preds, col, row, p, k, n + 1) == sum_at(f, src, preds, col, row, p, k, n) + w
                * preds[n].planes[p]@[k]
            &&& total_weight_at(f, src, preds, col, row, p, k, n + 1) == total_weight_at(
                f,
                src,
                preds,
                col,
                row,
                p,
                k,
                n,
            ) + w
        }),
{
}

/// Blocks that are held against each other start every 64 samples, row by row,
/// in both pictures alike, and end with the frame.
pub proof fn pairs_lie_at_the_same_place(width: int, height: int, fs: usize, us: usize, r: int, c: int)
    requires
        0 <= r,
        0 <= 64 * c < width,
        64 * r < height,
        64 * r * fs + 64 * c <= usize::MAX,
        64 * r * us + 64 * c <= usize::MAX,
        width <= u32::MAX,
        height <= u32::MAX,
    ensures
        ({
            let across = (width + 63) / 64;
            let b = block_pair(width, height, 64, fs, us, r * across + c);
            &&& b.0 == 64 * r * fs + 64 * c
            &&& b.1 == fs
            &&& b.2 == 64 * r * us + 64 * c
            &&& b.3 == us
            &&& b.4 == (if width - 64 * c < 64 {
                width - 64 * c
            } else {
                64
            })
            &&& b.5 == (if height - 64 * r < 64 {
                height - 64 * r
            } else {
                64
            })
        }),
{
    let across = (width + 63) / 64;
    assert(crate::temporal_filtering::subpel::blocks(width, 64) == across);
    assert(c < across);
    lemma_fundamental_div_mod_converse(r * across + c, across, r, c);
    assert(64 * r * fs >= 0 && 64 * r * us >= 0) by (nonlinear_arith)
        requires
            r >= 0,
            fs >= 0,
            us >= 0,
    ;
}

/// The blocks of a picture cover it, in rows and columns of 64 samples.
pub proof fn blocks_cover_the_picture(scs: RaTfScs)
    requires
        scs.aligned_width > 0,
        scs.aligned_height > 0,
    ensures
        64 * (block_grid(scs).0 - 1) < scs.aligned_width <= 64 * block_grid(scs).0,
        64 * (block_grid(scs).1 - 1) < scs.aligned_height <= 64 * block_grid(scs).1,
{
}

/// A sample of a plane lies in its block at what is left of its row and column
/// beyond whole blocks.
pub proof fn samples_lie_in_their_block(p: int, stride: int, br: int, bc: int, r: int, c: int)
    requires
        0 <= p < 3,
        0 <= br,
        0 <= bc,
        0 <= r < side(p),
        0 <= c < side(p),
        bc * side(p) + c < stride,
    ensures
        place_at(p, stride, (br * side(p) + r) * stride + (bc * side(p) + c)) == r * side(p) + c,
{
    let s = side(p);
    let (row, col) = (br * s + r, bc * s + c);
    assert(col >= 0) by (nonlinear_arith)
        requires
            col == bc * s + c,
            bc >= 0,
            s > 0,
            c >= 0,
    ;
    lemma_fundamental_div_mod_converse(row * stride + col, stride, row, col);
    lemma_fundamental_div_mod_converse(row, s, br, r);
    lemma_fundamental_div_mod_converse(col, s, bc, c);
}

/// The quarters of a block are counted in rows of two.
pub proof fn quarters_are_counted_in_rows(r: int, c: int, hh: int, hw: int)
    ensures
        r < hh && c < hw ==> quarter_of(r, c, hh, hw) == 0,
        r < hh && c >= hw ==> quarter_of(r, c, hh, hw) == 1,
        r >= hh && c < hw ==> quarter_of(r, c, hh, hw) == 2,
        r >= hh && c >= hw ==> quarter_of(r, c, hh, hw) == 3,
{
}

/// The steps of a refinement are the nine places around the best displacement
/// before it, a step apart both ways, column by column; the place itself is
/// the fifth.
pub proof fn steps_surround_the_best(p: TfSubpelSearchParams, mode: u8, step: int, best: Best, i: int, j: int)
    requires
        -1 <= i <= 1,
        -1 <= j <= 1,
        0 < step <= 8,
    ensures
        ({
            let t = step_params(p, mode, step, best, 3 * (i + 1) + (j + 1));
            &&& t.xd == i * step
            &&& t.yd == j * step
            &&& t.mv_x == best.x
            &&& t.mv_y == best.y
            &&& t.subpel_pel_mode == mode
            &&& t.bsize == p.bsize
        }),
{
    let k = 3 * (i + 1) + (j + 1);
    assert(k / 3 == i + 1 && k % 3 == j + 1);
    assert(-8 <= i * step <= 8 && -8 <= j * step <= 8) by (nonlinear_arith)
        requires
            -1 <= i <= 1,
            -1 <= j <= 1,
            0 < step <= 8,
    ;
}

/// A step is tried unless it is a diagonal one where those are left out, or
/// nothing is to be gained, or less error is left than the threshold allows for
/// every sample, twice that for wide samples.
pub proof fn steps_are_tried_while_they_may_pay(p: TfSubpelSearchParams, th: u32, best: Best)
    ensures
        best.dist == 0 ==> skips(p, th, best),
        p.subpel_pel_mode < 2 && best.dist > 0 && th == 0 ==> !skips(p, th, best),
        p.subpel_pel_mode >= 2 && p.xd != 0 && p.yd != 0 ==> skips(p, th, best),
        (p.subpel_pel_mode < 2 || p.xd == 0 || p.yd == 0) && best.dist > 0 && th > 0 && !p.is_highbd ==> (skips(p, th, best)
            <==> best.dist < (p.bsize * p.bsize) * th),
        (p.subpel_pel_mode < 2 || p.xd == 0 || p.yd == 0) && best.dist > 0 && th > 0 && p.is_highbd ==> (skips(p, th, best)
            <==> best.dist < 2 * ((p.bsize * p.bsize) * th)),
{
    assert((p.bsize * p.bsize) * th * 1 == (p.bsize * p.bsize) * th);
    assert((p.bsize * p.bsize) * th * 2 == 2 * ((p.bsize * p.bsize) * th));
}

/// Chroma counts as noisy where either of its planes is noisier than luma.
pub proof fn noisy_chroma_exceeds_luma(luma: i32, cb: i32, cr: i32)
    ensures
        chroma_noisy(seq![luma, cb, cr]) <==> cb > luma || cr > luma,
{
}

} // verus!
