//! What a block of the look-ahead is predicted from, what it leaves behind,
//! and what is gathered from it.

use vstd::arithmetic::div_mod::lemma_fundamental_div_mod;
use vstd::prelude::*;

use crate::arith::{lemma_raster_split, total};
use crate::tpl::context::{candidate, candidates, named_ref, vector_at, TplMeCand, TplMeResults, TplSbCtx};
use crate::tpl::dispenser::{
    block_stats, half_inside, is_choice, offer_costs, padded, stat_scale, InterOffer, SourceChoice, TplBlock,
};
use crate::tpl::model::{
    are_sums, delta_of, delta_terms, dist_terms, count_terms, factor_area, frame_area, frame_qindex, mi_side, peak,
    sb_area, sweep_block, Area, AreaSums,
};
use crate::tpl::samples::{block_samples, gap_at, magnitude_at, residual, row_step, with_residual};
use crate::tpl::search::{
    cell_of, cells_per_side, energy_at, error_at, first_cell, grid_stride, in_block, shared_among, subpel_plan,
    SubpelDepth, MI_LIMIT,
};
use crate::tpl::superblock::kept_at;
use crate::tpl::{TplStats, NEWMV};
use crate::types::{BlockSize, Mv, SliceType};

verus! {

/// A block is predicted from what is cheapest: whatever it takes costs no more
/// than any intra mode and any inter candidate, and between an intra mode and
/// an inter candidate of one cost, the intra mode is taken.
pub proof fn sources_are_the_cheapest(r: SourceChoice, intra: Seq<i64>, inter: Seq<InterOffer>, i: int, j: int)
    requires
        is_choice(r, intra, inter, i, j),
        intra.len() <= 13,
    ensures
        r.best_mode == NEWMV ==> {
            &&& exists|o: InterOffer| #[trigger]
                inter.contains(o) && o.rf_idx == r.best_rf_idx && o.mv == r.mv && o.ref_poc == r.ref_poc && (forall|k: int|
                    0 <= k < intra.len() ==> o.cost < #[trigger] intra[k]) && (forall|k: int|
                    0 <= k < inter.len() ==> o.cost <= (#[trigger] inter[k]).cost)
        },
        r.best_mode != NEWMV ==> r.best_mode == r.best_intra_mode,
        r.best_mode != NEWMV && intra.len() > 0 ==> {
            &&& forall|k: int| 0 <= k < intra.len() ==> intra[r.best_mode as int] <= #[trigger] intra[k]
            &&& forall|k: int| 0 <= k < inter.len() ==> intra[r.best_mode as int] <= (#[trigger] inter[k]).cost
        },
{
    let costs = offer_costs(inter);
    assert forall|k: int| 0 <= k < inter.len() implies (#[trigger] inter[k]).cost == costs[k] by {}
    if r.best_mode == NEWMV {
        if j == -1 {
            assert(r.best_intra_mode == NEWMV);
            assert(false);
        }
        if costs[j] < crate::tpl::dispenser::cost_at(intra, i) {
            assert(inter.contains(inter[j]));
            assert forall|k: int| 0 <= k < intra.len() implies inter[j].cost < #[trigger] intra[k] by {
                if i == -1 {
                    assert(intra[k] == i64::MAX);
                }
            }
        }
    } else if intra.len() > 0 {
        if i == -1 {
            assert(r.best_intra_mode == 0);
            assert(intra[0] == i64::MAX);
            assert forall|k: int| 0 <= k < inter.len() implies intra[0] <= (#[trigger] inter[k]).cost by {
                if j != -1 {
                    assert(costs[j] < i64::MAX);
                }
                assert(costs[k] == i64::MAX);
            }
        } else {
            assert forall|k: int| 0 <= k < intra.len() implies intra[i] <= #[trigger] intra[k] by {}
            assert forall|k: int| 0 <= k < inter.len() implies intra[i] <= (#[trigger] inter[k]).cost by {
                if j == -1 {
                    assert(costs[k] == i64::MAX);
                } else {
                    assert(costs[j] <= costs[k]);
                }
            }
        }
    }
}

/// Rows that are left out are made up for: with every second row, or every
/// fourth, what is measured counts twice or four times as much. Statistics
/// hold sixteenths.
pub proof fn rows_left_out_are_made_up_for(x: int)
    ensures
        stat_scale(x, 0) == 16 * x,
        stat_scale(x, 1) == 2 * stat_scale(x, 0),
        stat_scale(x, 2) == 4 * stat_scale(x, 0),
{
}

/// A block leaves the distortion and rate of its reconstruction, not below
/// those of its source prediction. One that is predicted from its own frame
/// has no other. Its vector and reference stay with it, but in a slice without
/// references. Nothing is owed to it yet.
pub proof fn blocks_leave_their_cost(
    c: SourceChoice,
    src_dist: i64,
    src_rate: i64,
    rec_dist: i64,
    rec_rate: i64,
    slice: SliceType,
)
    ensures
        ({
            let r = block_stats(c, src_dist as int, src_rate as int, rec_dist as int, rec_rate as int, slice);
            &&& r.mc_dep_dist == 0
            &&& r.mc_dep_rate == 0
            &&& c.best_mode == NEWMV ==> {
                &&& r.srcrf_dist == src_dist
                &&& r.srcrf_rate == src_rate
                &&& r.recrf_dist >= src_dist && r.recrf_dist >= rec_dist
                &&& r.recrf_dist == src_dist || r.recrf_dist == rec_dist
                &&& r.recrf_rate >= src_rate && r.recrf_rate >= rec_rate
                &&& r.recrf_rate == src_rate || r.recrf_rate == rec_rate
            }
            &&& c.best_mode != NEWMV ==> {
                &&& r.srcrf_dist == rec_dist && r.recrf_dist == rec_dist
                &&& r.srcrf_rate == rec_rate && r.recrf_rate == rec_rate
            }
            &&& !(slice is I) && c.best_rf_idx >= 0 ==> r.mv == c.mv && r.ref_frame_poc == c.ref_poc
            &&& slice is I || c.best_rf_idx == -1 ==> r.mv.x == 0 && r.mv.y == 0 && r.ref_frame_poc == 0
        }),
{
}

/// What a block leaves is shared evenly: as many equal shares as it has cells,
/// and less than one a cell is lost.
pub proof fn blocks_are_shared_evenly(st: TplStats, cells: int)
    requires
        1 <= cells,
        st.srcrf_dist >= cells,
        st.recrf_dist >= cells,
        st.srcrf_rate >= cells,
        st.recrf_rate >= cells,
    ensures
        ({
            let r = shared_among(st, cells);
            &&& cells * r.srcrf_dist <= st.srcrf_dist < cells * r.srcrf_dist + cells
            &&& cells * r.recrf_dist <= st.recrf_dist < cells * r.recrf_dist + cells
            &&& cells * r.srcrf_rate <= st.srcrf_rate < cells * r.srcrf_rate + cells
            &&& cells * r.recrf_rate <= st.recrf_rate < cells * r.recrf_rate + cells
            &&& r.mv == st.mv
            &&& r.ref_frame_poc == st.ref_frame_poc
            &&& r.mc_dep_dist == st.mc_dep_dist
            &&& r.mc_dep_rate == st.mc_dep_rate
        }),
{
    lemma_share(st.srcrf_dist as int, cells);
    lemma_share(st.recrf_dist as int, cells);
    lemma_share(st.srcrf_rate as int, cells);
    lemma_share(st.recrf_rate as int, cells);
}

proof fn lemma_share(x: int, d: int)
    requires
        1 <= d <= x,
    ensures
        1 <= x / d <= x,
        d * (x / d) <= x < d * (x / d) + d,
{
    lemma_fundamental_div_mod(x, d);
    assert(1 <= x / d <= x) by (nonlinear_arith)
        requires
            1 <= d <= x,
            x == d * (x / d) + x % d,
            0 <= x % d < d,
    ;
}

/// Every sample of a block lies in one of the block's cells: the cell of a
/// sample is the one at its row and column over the side of a cell, in rows
/// that hold the width of the frame.
pub proof fn blocks_fill_their_cells(side: u8, size: u32, width: int, x: int, y: int, dx: int, dy: int)
    requires
        side == 8 || side == 16,
        size == 16 || size == 32,
        0 <= width,
        0 <= x,
        0 <= y,
        x % 16 == 0,
        y % 16 == 0,
        0 <= dx < size,
        0 <= dy < size,
    ensures
        ({
            let across = (if side == 8 {
                2int
            } else {
                1
            }) * ((width + 15) / 16);
            &&& across == grid_stride(side, width)
            &&& across * side >= width
            &&& in_block(
                ((y + dy) / (side as int)) * across + (x + dx) / (side as int),
                first_cell(side, width, x, y),
                across,
                cells_per_side(side, size),
            )
        }),
{
    let s = grid_stride(side, width);
    let m = side as int;
    let r = dy / m;
    let c = dx / m;
    let n = cells_per_side(side, size);
    if side == 8 {
        assert((y + dy) / 8 == y / 8 + dy / 8 && (x + dx) / 8 == x / 8 + dx / 8);
    } else {
        assert((y + dy) / 16 == y / 16 + dy / 16 && (x + dx) / 16 == x / 16 + dx / 16);
    }
    assert(0 <= r < n && 0 <= c < n);
    assert((y / m + r) * s == (y / m) * s + r * s) by (nonlinear_arith);
    assert(((y + dy) / m) * s + (x + dx) / m == cell_of(first_cell(side, width, x, y), s, r, c));
}

/// The refinement of a vector starts within a sample of it, and keeps the
/// block within four samples of the frame: past its edges by no more than its
/// own side and those four.
pub proof fn refinement_stays_by_the_frame(
    depth: SubpelDepth,
    diag: u8,
    mi_rows: int,
    mi_cols: int,
    size: BlockSize,
    x: int,
    y: int,
    ref_base: int,
    src_base: int,
    rdmult: int,
    mv: Mv,
)
    requires
        0 <= mi_rows <= MI_LIMIT,
        0 <= mi_cols <= MI_LIMIT,
        0 <= x <= 4 * MI_LIMIT,
        0 <= y <= 4 * MI_LIMIT,
        x % 4 == 0,
        y % 4 == 0,
        0 <= rdmult <= i32::MAX,
    ensures
        ({
            let p = subpel_plan(depth, diag, mi_rows, mi_cols, size, x, y, ref_base, src_base, rdmult, mv);
            &&& x + p.limits.col_min == -(size.wide_spec() + 4)
            &&& y + p.limits.row_min == -(size.high_spec() + 4)
            &&& x + p.limits.col_max == 4 * mi_cols + 4
            &&& y + p.limits.row_max == 4 * mi_rows + 4
            &&& p.start_mv.x % 8 == 0
            &&& p.start_mv.y % 8 == 0
            &&& mv.x - 8 < p.start_mv.x <= mv.x
            &&& mv.y - 8 < p.start_mv.y <= mv.y
            &&& rdmult >= 384 ==> 384 * p.cost.error_per_bit <= rdmult < 384 * p.cost.error_per_bit + 384
            &&& rdmult < 384 ==> p.cost.error_per_bit == 1
            &&& p.forced_stop == depth
        }),
{
    assert(size.wide_spec() % 4 == 0 && size.high_spec() % 4 == 0 && size.wide_spec() <= 128 && size.high_spec() <= 128);
}

/// Error is the distance between what was and what is kept: nothing where they
/// are one, more than nothing elsewhere, the same seen from either, and the
/// energy where nothing is kept.
pub proof fn errors_are_distances(a: Seq<i32>, b: Seq<i32>, i: int)
    ensures
        a[i] == b[i] <==> error_at(a, b)(i) == 0,
        error_at(a, b)(i) >= 0,
        error_at(a, b)(i) == error_at(b, a)(i),
        b[i] == 0 ==> error_at(a, b)(i) == energy_at(a)(i),
        energy_at(a)(i) == a[i] * a[i],
{
    let d = a[i] - b[i];
    let f = b[i] - a[i];
    assert(d * d == f * f) by (nonlinear_arith)
        requires
            d == -f,
    ;
    assert(d * d >= 0) by (nonlinear_arith);
    if d != 0 {
        assert(d * d > 0) by (nonlinear_arith)
            requires
                d != 0,
        ;
    }
}

/// A frame's index follows the user's quantizer, is moved by the offset as far
/// as the last index, and by its layer's only where layers have one.
pub proof fn indices_are_capped_and_moved(qp: int, offset: int, delta: int)
    requires
        0 <= qp < 64,
    ensures
        ({
            let base = frame_qindex(qp, offset, false, delta);
            &&& base <= 255
            &&& base <= frame_qindex(qp, 0, false, delta) + offset
            &&& base == 255 || base == frame_qindex(qp, 0, false, delta) + offset
            &&& frame_qindex(qp, offset, true, delta) == base + delta
            &&& qp < 62 ==> frame_qindex(qp, 0, false, delta) == 4 * qp
            &&& frame_qindex(62, 0, false, delta) == 249
            &&& frame_qindex(63, 0, false, delta) == 255
            &&& frame_qindex(qp + 64, offset, false, delta) == frame_qindex(63, offset, false, delta)
        }),
{
    let t = crate::tpl::model::QUANTIZER_TO_QINDEX;
    assert(forall|k: int| 0 <= k < 62 ==> #[trigger] t[k] == 4 * k) by {
        assert(forall|k: int| 0 <= k < 62 ==> #[trigger] crate::tpl::model::QUANTIZER_TO_QINDEX[k] == 4 * k);
    }
}

proof fn lemma_same_total(f: spec_fn(int) -> int, g: spec_fn(int) -> int, n: int)
    requires
        forall|k: int| 0 <= k < n ==> #[trigger] f(k) == g(k),
    ensures
        total(f, n) == total(g, n),
    decreases n,
{
    if n > 0 {
        lemma_same_total(f, g, n - 1);
    }
}

/// The sums of a frame that is not scaled count every cell of its rows once:
/// its distortion, and the cost of what is owed to it.
pub proof fn frames_count_every_cell_once(
    r: AreaSums,
    side: u8,
    mi_rows: i32,
    width: u32,
    rdmult: int,
    stats: Seq<TplStats>,
)
    requires
        side == 8 || side == 16,
        0 <= mi_rows <= MI_LIMIT,
        0 < width <= 4 * MI_LIMIT,
        are_sums(
            r,
            stats,
            frame_area(side, 8, mi_rows, width),
            (4 * ((width as int + 15) / 16)) / mi_side(side),
            mi_side(side),
            rdmult,
        ),
    ensures
        ({
            let m: int = if side == 8 {
                2
            } else {
                4
            };
            let across = (if side == 8 {
                2int
            } else {
                1
            }) * ((width as int + 15) / 16);
            let cells = ((mi_rows + m - 1) / m) * across;
            &&& r.count == cells
            &&& r.recrf_dist == total(|k: int| stats[k].recrf_dist as int, cells)
            &&& r.mc_dep_delta == total(
                |k: int| (stats[k].mc_dep_rate * rdmult + 256) / 512 + 128 * stats[k].mc_dep_dist,
                cells,
            )
        }),
{
    let m = mi_side(side);
    let a = frame_area(side, 8, mi_rows, width);
    let stride = (4 * ((width as int + 15) / 16)) / m;
    let cells = ((mi_rows + m - 1) / m) * stride;
    assert(a.col_step == m && a.row_step == m);
    let w = (width as int + 15) / 16;
    assert(w >= 1);
    if side == 8 {
        assert(stride == 2 * w && a.cols() == (4 * w + 1) / 2);
    } else {
        assert(stride == w && a.cols() == (4 * w + 3) / 4);
    }
    assert(a.cols() == stride && stride > 0);
    assert(a.rows() == (mi_rows + m - 1) / m);
    assert(a.rows() * a.cols() == cells);
    assert forall|k: int| 0 <= k < cells implies #[trigger] a.cell(stride, m, k) == k && a.counted(k) by {
        lemma_fundamental_div_mod(k, stride);
        let (q, c) = (k / stride, k % stride);
        assert(0 <= q < a.rows() && 0 <= c < stride) by (nonlinear_arith)
            requires
                k == stride * q + c,
                0 <= k < a.rows() * stride,
                stride > 0,
                c == k % stride,
                q == k / stride,
        ;
        if m == 2 {
            assert((q * 2) / 2 == q && (c * 2) / 2 == c);
        } else {
            assert((q * 4) / 4 == q && (c * 4) / 4 == c);
        }
        assert(q * stride == stride * q) by (nonlinear_arith);
    }
    let owed = |k: int| (stats[k].mc_dep_rate * rdmult + 256) / 512 + 128 * stats[k].mc_dep_dist;
    let dist = |k: int| stats[k].recrf_dist as int;
    let one = |k: int| 1int;
    assert forall|k: int| 0 <= k < cells implies #[trigger] dist_terms(stats, a, stride, m)(k) == dist(k) by {
        assert(a.cell(stride, m, k) == k);
    }
    assert forall|k: int| 0 <= k < cells implies #[trigger] delta_terms(stats, a, stride, m, rdmult)(k) == owed(k) by {
        assert(a.cell(stride, m, k) == k);
    }
    assert forall|k: int| 0 <= k < cells implies #[trigger] count_terms(a)(k) == one(k) by {
        assert(a.cell(stride, m, k) == k);
    }
    lemma_same_total(dist_terms(stats, a, stride, m), dist, cells);
    lemma_same_total(delta_terms(stats, a, stride, m, rdmult), owed, cells);
    lemma_same_total(count_terms(a), one, cells);
    assert(cells >= 0) by (nonlinear_arith)
        requires
            cells == a.rows() * stride,
            a.rows() >= 0,
            stride > 0,
    ;
    lemma_ones(cells);
}

proof fn lemma_ones(n: int)
    requires
        0 <= n,
    ensures
        total(|k: int| 1int, n) == n,
    decreases n,
{
    if n > 0 {
        lemma_ones(n - 1);
    }
}

proof fn lemma_peak(f: spec_fn(int) -> int, n: int)
    ensures
        peak(f, n) >= 0,
        forall|k: int| 0 <= k < n ==> #[trigger] f(k) <= peak(f, n),
        peak(f, n) > 0 ==> exists|k: int| 0 <= k < n && #[trigger] f(k) == peak(f, n),
    decreases n,
{
    if n > 0 {
        lemma_peak(f, n - 1);
        if peak(f, n) > 0 {
            if peak(f, n - 1) < f(n - 1) {
                assert(f(n - 1) == peak(f, n));
            } else {
                let k = choose|k: int| 0 <= k < n - 1 && #[trigger] f(k) == peak(f, n - 1);
                assert(f(k) == peak(f, n));
            }
        }
    }
}

/// The largest cost is that of a cell of the area, and no cell of the area has
/// a larger one.
pub proof fn the_largest_cost_is_a_cells(r: AreaSums, stats: Seq<TplStats>, a: Area, stride: int, m: int, rdmult: int)
    requires
        are_sums(r, stats, a, stride, m, rdmult),
    ensures
        forall|k: int|
            0 <= k < a.rows() * a.cols() && #[trigger] a.counted(k) ==> delta_of(stats[a.cell(stride, m, k)], rdmult)
                <= r.max_delta,
        r.max_delta > 0 ==> exists|k: int|
            0 <= k < a.rows() * a.cols() && #[trigger] a.counted(k) && delta_of(stats[a.cell(stride, m, k)], rdmult)
                == r.max_delta,
{
    let f = delta_terms(stats, a, stride, m, rdmult);
    let n = a.rows() * a.cols();
    lemma_peak(f, n);
    assert forall|k: int| 0 <= k < n && #[trigger] a.counted(k) implies delta_of(stats[a.cell(stride, m, k)], rdmult)
        <= r.max_delta by {
        assert(f(k) <= peak(f, n));
    }
    if r.max_delta > 0 {
        let k = choose|k: int| 0 <= k < n && #[trigger] f(k) == peak(f, n);
        assert(a.counted(k));
    }
}

/// The area of a superblock of a frame that is not scaled holds the positions
/// from its origin over its side, a cell apart, that lie in the frame.
pub proof fn superblock_areas_start_at_their_origin(side: u8, sb_size: u32, width: u32, height: u32, x: u32, y: u32)
    requires
        side == 8 || side == 16 || side == 32,
        sb_size == 64 || sb_size == 128,
        width <= 4 * MI_LIMIT,
        height <= 4 * MI_LIMIT,
        x <= 2 * MI_LIMIT,
        y <= 2 * MI_LIMIT,
        x % 64 == 0,
        y % 64 == 0,
    ensures
        ({
            let b = sb_area(side, sb_size, 8, width, height, x, y);
            &&& 4 * b.row0 == y && 4 * b.col0 == x
            &&& 4 * b.row1 == y + sb_size && 4 * b.col1 == x + sb_size
            &&& 4 * b.row_step == side && 4 * b.col_step == side
            &&& height <= 4 * b.row_limit < height + 16 && width <= 4 * b.col_limit < width + 16
        }),
{
    let (c, d) = (x as int / 4, sb_size as int / 4);
    assert((c * 8 + 4) / 8 == c);
    assert(((c + d) * 8 + 4) / 8 == c + d);
    let m = mi_side(side);
    assert((m * 8 + 4) / 8 == m);
    assert(4 * c == x && 4 * d == sb_size);
}

/// The area of one multiplier holds the positions of its square of 16 samples,
/// or of 32 where cells are as large, a cell apart, that lie in the frame.
pub proof fn multiplier_areas_start_at_their_origin(side: u8, width: u32, row: i32, col: i32, mi_rows: i32)
    requires
        side == 8 || side == 16 || side == 32,
        width <= 4 * MI_LIMIT,
        0 <= row <= 0x2_0000,
        0 <= col <= 0x2_0000,
    ensures
        ({
            let f = factor_area(side, mi_rows, width, row, col);
            let square: int = if side == 32 {
                32
            } else {
                16
            };
            &&& 4 * f.row0 == square * row && 4 * f.col0 == square * col
            &&& 4 * f.row1 == square * (row + 1) && 4 * f.col1 == square * (col + 1)
            &&& 4 * f.row_step == side && 4 * f.col_step == side
            &&& f.row_limit == mi_rows && width <= 4 * f.col_limit < width + 16
        }),
{
    if side == 32 {
        assert(row * 8 <= 0x10_0000 && col * 8 <= 0x10_0000);
    } else {
        assert(row * 4 <= 0x8_0000 && col * 4 <= 0x8_0000);
    }
}

/// What a block differs by from its prediction brings it back: with every row
/// transformed, adding the residual to the prediction gives the block.
pub proof fn residuals_bring_the_block_back(
    src: Seq<u8>,
    o: int,
    stride: int,
    pred: Seq<u8>,
    size: int,
    res: Seq<i32>,
    i: int,
)
    requires
        size == 16 || size == 32 || size == 64,
        0 <= i < size * size,
        res.len() == size * size,
        forall|k: int| 0 <= k < size * size ==> #[trigger] res[k] == residual(src, o, stride, pred, size, 1)[k],
    ensures
        with_residual(pred, res, size, 1)[i] == block_samples(src, o, stride, size)[i],
        block_samples(src, o, stride, size)[i] == src[o + (i / size) * stride + i % size],
{
    lemma_raster_split(i, size, size);
    let (r, c) = (i / size, i % size);
    assert(size / 1 == size && r / 1 * 1 == r && r * 1 == r);
    assert(size * size >= 0);
    assert(r * size + c == i);
    assert(0 + r * size + c == i);
    let d = residual(src, o, stride, pred, size, 1);
    assert(d.len() == size * size);
    assert(res[i] == d[i]);
    assert(d[i] == src[o + r * stride + c] - pred[i]);
}

/// Rows are left out by halves: all are transformed, every second, or every
/// fourth; those that were left out get what the one before them got.
pub proof fn rows_are_left_out_by_halves(pred: Seq<u8>, res: Seq<i32>, size: int, c: int, r: int)
    requires
        size == 16 || size == 32 || size == 64,
        0 <= c < size,
        0 <= r < size,
    ensures
        row_step(0) == 1,
        row_step(1) == 2,
        row_step(2) == 4,
        ({
            let whole = with_residual(pred, res, size, 4);
            whole[r * size + c] == whole[(r - r % 4) * size + c]
        }),
{
    let lead = r - r % 4;
    assert(0 <= r * size + c < size * size && 0 <= lead * size + c < size * size) by (nonlinear_arith)
        requires
            0 <= c < size,
            0 <= lead <= r < size,
    ;
    vstd::arithmetic::div_mod::lemma_fundamental_div_mod_converse(r * size + c, size, r, c);
    vstd::arithmetic::div_mod::lemma_fundamental_div_mod_converse(lead * size + c, size, lead, c);
    assert(lead / 4 == r / 4);
}

/// The gap of a sample is its distance from the prediction, on either side; the
/// magnitude of a coefficient is its distance from zero.
pub proof fn gaps_are_distances(src: Seq<u8>, o: int, stride: int, pred: Seq<u8>, size: int, r: int, c: int, coeff: Seq<i32>)
    requires
        0 < size,
        0 <= r,
        0 <= c < size,
    ensures
        ({
            let (s, p) = (src[o + r * stride + c] as int, pred[r * size + c] as int);
            gap_at(src, o, stride, pred, size)(r * size + c) == if s >= p {
                s - p
            } else {
                p - s
            }
        }),
        magnitude_at(coeff)(c) >= 0,
        magnitude_at(coeff)(c) == coeff[c] || magnitude_at(coeff)(c) == -coeff[c],
{
    vstd::arithmetic::div_mod::lemma_fundamental_div_mod_converse(r * size + c, size, r, c);
}

/// A block is searched where its middle lies in the frame or on its edge.
pub proof fn blocks_with_their_middle_inside_are_searched(x: int, y: int, size: int, width: int, height: int)
    requires
        size == 16 || size == 32 || size == 64,
    ensures
        half_inside(x, y, size, width, height) <==> 2 * x + size <= 2 * width && 2 * y + size <= 2 * height,
{
}

/// The outcome of the search on the source is kept by rows of 16x16 blocks.
pub proof fn outcomes_are_kept_by_rows(c: TplSbCtx, b: TplBlock, col: int, row: int)
    requires
        b.x == 16 * col,
        b.y == 16 * row,
    ensures
        kept_at(c, b) == row * c.aligned16_width + col,
{
}

/// Vectors are kept by block, and of a block those of the first list before
/// those of the second; candidates are kept by block.
pub proof fn vectors_are_kept_by_block_and_list(me: TplMeResults, off: int, i: int, n: int)
    ensures
        vector_at(me, off, 0, i) == off * me.max_refs + i,
        vector_at(me, off, 1, i) == vector_at(me, off, 0, i) + me.max_l0,
        vector_at(me, off + 1, 0, i) == vector_at(me, off, 0, i) + me.max_refs,
        candidate(me, off, n) == me.me_candidate_array@[off * me.max_cand + n],
{
    assert((off + 1) * me.max_refs == off * me.max_refs + me.max_refs) by (nonlinear_arith);
}

/// A candidate names its reference in the list it predicts from, and slices
/// without references have no candidates.
pub proof fn candidates_name_their_reference(c: TplMeCand, me: TplMeResults, off: int)
    ensures
        c.direction == 0 ==> named_ref(c) == c.ref_idx_l0,
        c.direction != 0 ==> named_ref(c) == c.ref_idx_l1,
        candidates(SliceType::I, me, off) == 0,
{
}

/// A start vector keeps the block within the padding: it is the vector itself
/// where that does, and else the nearest that does, sample by sample.
pub proof fn start_vectors_stay_in_the_padding(mv: int, pos: int, size: int, extent: int)
    requires
        0 <= pos,
        0 < size,
        pos + size <= extent + 63,
        0 <= extent,
    ensures
        -32 <= pos + padded(mv, pos, size, extent),
        pos + padded(mv, pos, size, extent) + size <= extent + 31 || padded(mv, pos, size, extent) == -32 - pos,
        -32 <= pos + mv && pos + mv + size <= extent + 31 ==> padded(mv, pos, size, extent) == mv,
{
}

/// Cells are swept in blocks of sixteen samples, or of 32 where the cells are
/// as large; a cell measures its side in units of four samples.
pub proof fn cells_are_measured_in_units_of_four(side: u8)
    ensures
        side == 8 || side == 16 || side == 32 ==> 4 * mi_side(side) == side,
        side == 8 || side == 16 ==> sweep_block(side).wide_spec() == 16 && sweep_block(side).high_spec() == 16,
        side == 32 ==> sweep_block(side).wide_spec() == 32 && sweep_block(side).high_spec() == 32,
{
}

} // verus!
