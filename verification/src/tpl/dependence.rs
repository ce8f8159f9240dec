//! How what a block owes travels to its reference, sample by sample, and how
//! references are found.

use vstd::arithmetic::mul::{
    lemma_mul_inequality, lemma_mul_is_distributive_add_other_way, lemma_mul_nonnegative,
};
use vstd::prelude::*;

use crate::arith::{div_trunc, max_int, min_int};
use crate::src_ops::{floor_cell, round_floor_is_floor_division};
use crate::tpl::model::{
    blocks_across, blocks_down, carried_by, cell_in_picture, cell_index, cell_step, deposit, deposit_fits,
    find_from, frame_walk, geo_ok, quad_area, quad_col, quad_row, ref_pos, result_of, spread, spread_fits,
    still_blocks_pass_on_everything, stride_of, window_walk, Carry, PicGeo, WalkState,
};
use crate::tpl::TplStats;
use crate::types::{BlockSize, Mv};

verus! {

/// What a block owes to its reference: what reconstruction added over the
/// source, and of what others owe to the block the share that this is of its
/// distortion.
pub open spec fn owed_dist(st: TplStats) -> int {
    let added = st.recrf_dist - st.srcrf_dist;
    added + div_trunc(st.mc_dep_dist * added, st.recrf_dist as int)
}

/// A still block hands the one cell it covers the distortion that
/// reconstruction added over the source, with the same share of what others
/// owe to the block, and the rate likewise, with the rate that is carried
/// over.
pub proof fn still_blocks_hand_on_their_dependents(
    grid: Seq<TplStats>,
    g: PicGeo,
    m: int,
    st: TplStats,
    carried: int,
    row: int,
    col: int,
)
    requires
        m == 2 || m == 4 || m == 8,
        st.mv == (Mv { x: 0, y: 0 }),
        geo_ok(g, m, grid.len() as int),
        cell_in_picture(g, row, col, m),
        spread_fits(grid, g, m, st, carried, row * m, col * m, 4),
    ensures
        ({
            let at = cell_index(g, m, row, col);
            let new = spread(grid, g, m, st, carried, row * m, col * m, 4);
            &&& new[at].mc_dep_dist == grid[at].mc_dep_dist + (st.recrf_dist - st.srcrf_dist) + div_trunc(
                st.mc_dep_dist * (st.recrf_dist - st.srcrf_dist),
                st.recrf_dist as int,
            )
            &&& new[at].mc_dep_rate == grid[at].mc_dep_rate + (st.recrf_rate - st.srcrf_rate) + carried
        }),
{
    still_blocks_pass_on_everything(grid, g, m, st, carried, row, col);
}

/// The more others owe to a block, the more the block owes: a still block that
/// gained anything by its reference hands on strictly more once what others
/// owe to it has grown by its own distortion, and exactly so much more as it
/// gained.
pub proof fn dependence_travels_on(
    grid: Seq<TplStats>,
    g: PicGeo,
    m: int,
    st: TplStats,
    more: TplStats,
    carried: int,
    row: int,
    col: int,
)
    requires
        m == 2 || m == 4 || m == 8,
        st.mv == (Mv { x: 0, y: 0 }),
        0 <= st.mc_dep_dist,
        0 <= st.srcrf_dist < st.recrf_dist,
        more == (TplStats { mc_dep_dist: more.mc_dep_dist, ..st }),
        more.mc_dep_dist == st.mc_dep_dist + st.recrf_dist,
        geo_ok(g, m, grid.len() as int),
        cell_in_picture(g, row, col, m),
        spread_fits(grid, g, m, st, carried, row * m, col * m, 4),
        spread_fits(grid, g, m, more, carried, row * m, col * m, 4),
    ensures
        ({
            let at = cell_index(g, m, row, col);
            spread(grid, g, m, more, carried, row * m, col * m, 4)[at].mc_dep_dist == spread(
                grid,
                g,
                m,
                st,
                carried,
                row * m,
                col * m,
                4,
            )[at].mc_dep_dist + (st.recrf_dist - st.srcrf_dist)
        }),
{
    still_blocks_pass_on_everything(grid, g, m, st, carried, row, col);
    still_blocks_pass_on_everything(grid, g, m, more, carried, row, col);
    let d = st.recrf_dist as int;
    let a = st.recrf_dist - st.srcrf_dist;
    let x = st.mc_dep_dist as int;
    lemma_mul_nonnegative(x, a);
    lemma_mul_nonnegative(x + d, a);
    assert((x + d) * a == a * d + x * a) by (nonlinear_arith);
    vstd::arithmetic::div_mod::lemma_hoist_over_denominator(x * a, a, d as nat);
}

/// How far a stretch of `b` samples at `pos` reaches into the one at `cell`.
pub open spec fn shared(pos: int, cell: int, b: int) -> int {
    max_int(0, min_int(pos + b, cell + b) - max_int(pos, cell))
}

proof fn lemma_shared(pos: int, b: int, r: int)
    requires
        b > 0,
    ensures
        ({
            let r0 = floor_cell(pos, b);
            shared(pos, r * b, b) == if r == r0 {
                r0 * b + b - pos
            } else if r == r0 + 1 {
                pos + b - (r0 + 1) * b
            } else {
                0
            }
        }),
{
    let r0 = floor_cell(pos, b);
    round_floor_is_floor_division(pos, b);
    lemma_mul_is_distributive_add_other_way(b, r0, 1);
    if r < r0 {
        lemma_mul_inequality(r + 1, r0, b);
        lemma_mul_is_distributive_add_other_way(b, r, 1);
    }
    if r > r0 + 1 {
        lemma_mul_inequality(r0 + 2, r, b);
        lemma_mul_is_distributive_add_other_way(b, r0, 2);
    }
}

/// Every cell of the picture has a place of its own.
pub open spec fn places_differ(g: PicGeo, m: int) -> bool {
    g.cols <= m * stride_of(g.width, m)
}

proof fn lemma_places(g: PicGeo, m: int, row: int, col: int, r: int, c: int)
    requires
        m > 0,
        places_differ(g, m),
        cell_in_picture(g, row, col, m),
        cell_in_picture(g, r, c, m),
        cell_index(g, m, row, col) == cell_index(g, m, r, c),
    ensures
        row == r,
        col == c,
{
    let s = stride_of(g.width, m);
    assert(col < s && c < s) by (nonlinear_arith)
        requires
            col * m < g.cols,
            c * m < g.cols,
            g.cols <= m * s,
            m > 0,
    ;
    if row < r {
        lemma_mul_inequality(row + 1, r, s);
        lemma_mul_is_distributive_add_other_way(s, row, 1);
    }
    if r < row {
        lemma_mul_inequality(r + 1, row, s);
        lemma_mul_is_distributive_add_other_way(s, r, 1);
    }
}

/// What a cell of a reference gains by a block.
spec fn gains(old_cell: TplStats, new: TplStats, st: TplStats, carried: int, area: int, m: int) -> bool {
    &&& new.mc_dep_dist == old_cell.mc_dep_dist + div_trunc(owed_dist(st) * area, 16 * (m * m))
    &&& new.mc_dep_rate == old_cell.mc_dep_rate + div_trunc(
        (st.recrf_rate - st.srcrf_rate + carried) * area,
        16 * (m * m),
    )
    &&& new == (TplStats { mc_dep_dist: new.mc_dep_dist, mc_dep_rate: new.mc_dep_rate, ..old_cell })
}

proof fn lemma_one_deposit(
    grid: Seq<TplStats>,
    g: PicGeo,
    m: int,
    st: TplStats,
    carried: int,
    mi_row: int,
    mi_col: int,
    k: int,
    row: int,
    col: int,
)
    requires
        m == 2 || m == 4 || m == 8,
        0 <= k < 4,
        geo_ok(g, m, grid.len() as int),
        places_differ(g, m),
        cell_in_picture(g, row, col, m),
        deposit_fits(grid, g, m, st, carried, mi_row, mi_col, k),
    ensures
        ({
            let at = cell_index(g, m, row, col);
            let new = deposit(grid, g, m, st, carried, mi_row, mi_col, k);
            &&& new.len() == grid.len()
            &&& if row == quad_row(st, mi_row, m, k) && col == quad_col(st, mi_col, m, k) {
                gains(grid[at], new[at], st, carried, quad_area(st, mi_row, mi_col, m, k), m)
            } else {
                new[at] == grid[at]
            }
        }),
{
    let (r, c) = (quad_row(st, mi_row, m, k), quad_col(st, mi_col, m, k));
    assert(0 <= cell_index(g, m, row, col) < grid.len());
    if cell_in_picture(g, r, c, m) {
        assert(0 <= cell_index(g, m, r, c) < grid.len());
        if cell_index(g, m, row, col) == cell_index(g, m, r, c) {
            lemma_places(g, m, row, col, r, c);
        }
    }
}

proof fn lemma_quad_area(st: TplStats, mi_row: int, mi_col: int, m: int, k: int)
    requires
        m > 0,
        0 <= k < 4,
    ensures
        quad_area(st, mi_row, mi_col, m, k) == shared(
            ref_pos(mi_row, st.mv.y as int),
            quad_row(st, mi_row, m, k) * (4 * m),
            4 * m,
        ) * shared(ref_pos(mi_col, st.mv.x as int), quad_col(st, mi_col, m, k) * (4 * m), 4 * m),
{
    let b = 4 * m;
    let (y, x) = (ref_pos(mi_row, st.mv.y as int), ref_pos(mi_col, st.mv.x as int));
    let (r, c) = (quad_row(st, mi_row, m, k), quad_col(st, mi_col, m, k));
    lemma_shared(y, b, r);
    lemma_shared(x, b, c);
    let (h, w) = (shared(y, r * b, b), shared(x, c * b, b));
    assert(w * h == h * w) by (nonlinear_arith);
    assert(k / 2 == 0 || k / 2 == 1);
    assert(k % 2 == 0 || k % 2 == 1);
}

/// A block hands every cell of its reference a share of what it owes: the
/// share of the block's samples that are predicted from that cell, rounded
/// toward nothing. The block is predicted from `4 * mi_row + mv.y / 8` and
/// `4 * mi_col + mv.x / 8` on. Nothing else changes in a cell.
pub proof fn blocks_hand_on_by_overlap(
    grid: Seq<TplStats>,
    g: PicGeo,
    m: int,
    st: TplStats,
    carried: int,
    mi_row: int,
    mi_col: int,
    row: int,
    col: int,
)
    requires
        m == 2 || m == 4 || m == 8,
        geo_ok(g, m, grid.len() as int),
        places_differ(g, m),
        cell_in_picture(g, row, col, m),
        spread_fits(grid, g, m, st, carried, mi_row, mi_col, 4),
    ensures
        ({
            let at = row * stride_of(g.width, m) + col;
            let new = spread(grid, g, m, st, carried, mi_row, mi_col, 4)[at];
            let (y, x) = (4 * mi_row + st.mv.y as int / 8, 4 * mi_col + st.mv.x as int / 8);
            let b = 4 * m;
            let tall = max_int(0, min_int(y + b, row * b + b) - max_int(y, row * b));
            let wide = max_int(0, min_int(x + b, col * b + b) - max_int(x, col * b));
            let added = st.recrf_dist - st.srcrf_dist;
            let dist = added + div_trunc(st.mc_dep_dist * added, st.recrf_dist as int);
            let rate = st.recrf_rate - st.srcrf_rate + carried;
            &&& new.mc_dep_dist == grid[at].mc_dep_dist + div_trunc(dist * (tall * wide), b * b)
            &&& new.mc_dep_rate == grid[at].mc_dep_rate + div_trunc(rate * (tall * wide), b * b)
            &&& new == (TplStats { mc_dep_dist: new.mc_dep_dist, mc_dep_rate: new.mc_dep_rate, ..grid[at] })
        }),
{
    let at = cell_index(g, m, row, col);
    let b = 4 * m;
    let (y, x) = (ref_pos(mi_row, st.mv.y as int), ref_pos(mi_col, st.mv.x as int));
    let (r0, c0) = (floor_cell(y, b), floor_cell(x, b));
    let g1 = spread(grid, g, m, st, carried, mi_row, mi_col, 1);
    let g2 = spread(grid, g, m, st, carried, mi_row, mi_col, 2);
    let g3 = spread(grid, g, m, st, carried, mi_row, mi_col, 3);
    reveal_with_fuel(spread, 5);
    reveal_with_fuel(spread_fits, 5);
    assert(b * b == 16 * (m * m)) by (nonlinear_arith)
        requires
            b == 4 * m,
    ;
    lemma_one_deposit(grid, g, m, st, carried, mi_row, mi_col, 0, row, col);
    lemma_one_deposit(g1, g, m, st, carried, mi_row, mi_col, 1, row, col);
    lemma_one_deposit(g2, g, m, st, carried, mi_row, mi_col, 2, row, col);
    lemma_one_deposit(g3, g, m, st, carried, mi_row, mi_col, 3, row, col);
    lemma_quad_area(st, mi_row, mi_col, m, 0);
    lemma_quad_area(st, mi_row, mi_col, m, 1);
    lemma_quad_area(st, mi_row, mi_col, m, 2);
    lemma_quad_area(st, mi_row, mi_col, m, 3);
    lemma_shared(y, b, row);
    lemma_shared(x, b, col);
    let (tall, wide) = (shared(y, row * b, b), shared(x, col * b, b));
    if (row != r0 && row != r0 + 1) || (col != c0 && col != c0 + 1) {
        assert(tall * wide == 0) by (nonlinear_arith)
            requires
                tall == 0 || wide == 0,
        ;
        assert(b * b > 0) by (nonlinear_arith)
            requires
                b >= 8,
        ;
        vstd::arithmetic::div_mod::lemma_div_basics(b * b);
        assert(owed_dist(st) * 0 == 0);
        assert((st.recrf_rate - st.srcrf_rate + carried) * 0 == 0);
    }
}

/// The reference of a block is the first picture of the window, from where the
/// search stands, that has the number the block names; where there is none,
/// nothing is handed on.
pub proof fn references_are_found_by_number(gs: Seq<PicGeo>, i: int, n: int, number: u64)
    requires
        0 <= i <= n <= gs.len(),
    ensures
        ({
            let j = find_from(gs, i, n, number);
            &&& i <= j <= n
            &&& j < n ==> gs[j].number == number
            &&& forall|k: int| i <= k < j ==> (#[trigger] gs[k]).number != number
        }),
    decreases n - i,
{
    if i < n && gs[i].number != number {
        references_are_found_by_number(gs, i + 1, n, number);
    }
}

/// A block changes the grid of the picture it names and no other; where the
/// window holds no such picture, it changes nothing.
pub proof fn only_the_reference_gains(
    ws: WalkState,
    gs: Seq<PicGeo>,
    m: int,
    st: TplStats,
    carried: int,
    mi_row: int,
    mi_col: int,
    n: int,
    k: int,
)
    requires
        0 <= ws.i <= n <= gs.len(),
        gs.len() == ws.grids.len(),
        0 <= k < ws.grids.len(),
        cell_step(ws, gs, m, st, carried, mi_row, mi_col, n).grids[k] != ws.grids[k],
    ensures
        gs[k].number == st.ref_frame_poc,
        k < n,
{
    references_are_found_by_number(gs, ws.i, n, st.ref_frame_poc);
}

/// A rate is carried over only where rates are computed: it is then what the
/// model returns for the rate that others owe to the cell, its distortions and
/// its number of samples.
pub proof fn rates_are_carried_by_the_model<F: Fn(i64, i64, i64, i64) -> i64>(cost: F, m: int, st: TplStats, r: i64)
    requires
        m == 2 || m == 4 || m == 8,
        call_ensures(cost, (st.mc_dep_rate, st.recrf_dist, st.srcrf_dist, (4 * m * (4 * m)) as i64), r),
        forall|a: i64, b: i64|
            #[trigger] call_ensures(cost, (st.mc_dep_rate, st.recrf_dist, st.srcrf_dist, (4 * m * (4 * m)) as i64), a)
                && #[trigger] call_ensures(
                cost,
                (st.mc_dep_rate, st.recrf_dist, st.srcrf_dist, (4 * m * (4 * m)) as i64),
                b,
            ) ==> a == b,
    ensures
        carried_by(cost, false, m)(st) == 0,
        carried_by(cost, true, m)(st) == r,
{
    assert(4 * m * (4 * m) == 16 * (m * m)) by (nonlinear_arith);
    let d = (16 * (m * m)) as i64;
    assert(call_ensures(cost, (st.mc_dep_rate, st.recrf_dist, st.srcrf_dist, d), r));
    let c = result_of(cost, st.mc_dep_rate, st.recrf_dist, st.srcrf_dist, d);
    assert(call_ensures(cost, (st.mc_dep_rate, st.recrf_dist, st.srcrf_dist, d), c));
}

proof fn lemma_idle_frames(
    g0: Seq<Seq<TplStats>>,
    gs: Seq<PicGeo>,
    m: int,
    valid: Seq<bool>,
    bsize: BlockSize,
    carry: Carry,
    n: int,
    k: int,
    from: int,
)
    requires
        k <= from <= n,
        forall|i: int| k <= i < from ==> !#[trigger] valid[i],
    ensures
        window_walk(g0, gs, m, valid, bsize, carry, n, k) == window_walk(g0, gs, m, valid, bsize, carry, n, from),
    decreases from - k,
{
    if k < from {
        lemma_idle_frames(g0, gs, m, valid, bsize, carry, n, k + 1, from);
        assert(!valid[k]);
    }
}

/// Frames hand on from the last to the first, so that what a frame hands on
/// holds what later ones have handed to it: of two frames that take part, the
/// earlier one starts from what the later one has left. Frames that take no
/// part hand nothing on.
pub proof fn later_frames_hand_on_first(
    g0: Seq<Seq<TplStats>>,
    gs: Seq<PicGeo>,
    m: int,
    valid: Seq<bool>,
    bsize: BlockSize,
    carry: Carry,
    n: int,
    a: int,
    b: int,
)
    requires
        0 <= a < b < n,
        valid[a],
        valid[b],
        forall|i: int| 0 <= i < n && i != a && i != b ==> !#[trigger] valid[i],
    ensures
        ({
            let later = frame_walk(g0, gs, m, b, bsize, carry, n, blocks_down(gs[b].rows, bsize));
            window_walk(g0, gs, m, valid, bsize, carry, n, 0) == frame_walk(
                later,
                gs,
                m,
                a,
                bsize,
                carry,
                n,
                blocks_down(gs[a].rows, bsize),
            )
        }),
{
    lemma_idle_frames(g0, gs, m, valid, bsize, carry, n, 0, a);
    lemma_idle_frames(g0, gs, m, valid, bsize, carry, n, a + 1, b);
    lemma_idle_frames(g0, gs, m, valid, bsize, carry, n, b + 1, n);
}

/// The blocks of a frame cover it, and none lies outside.
pub proof fn blocks_cover_the_frame(units: int, bsize: BlockSize)
    requires
        0 < units,
        bsize is Block16x16 || bsize is Block32x32,
    ensures
        ({
            let side: int = if bsize is Block16x16 {
                4
            } else {
                8
            };
            &&& side * (blocks_down(units, bsize) - 1) < units <= side * blocks_down(units, bsize)
            &&& side * (blocks_across(units, bsize) - 1) < units <= side * blocks_across(units, bsize)
        }),
{
    let side: int = if bsize is Block16x16 {
        4
    } else {
        8
    };
    assert(bsize.high_spec() / 4 == side && bsize.wide_spec() / 4 == side);
    vstd::arithmetic::div_mod::lemma_fundamental_div_mod(units + side - 1, side);
    let n = (units + side - 1) / side;
    assert(side * (n - 1) == side * n - side) by (nonlinear_arith);
}

} // verus!
