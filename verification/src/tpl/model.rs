//! What later frames owe to the blocks of a frame: propagation along motion
//! vectors, and the sums the frame-level factors are formed from.

use vstd::arithmetic::div_mod::{lemma_div_pos_is_pos, lemma_fundamental_div_mod};
use vstd::arithmetic::mul::{lemma_mul_inequality, lemma_mul_is_commutative, lemma_mul_nonnegative};
use vstd::prelude::*;

use crate::arith::{div_trunc, max_int, min_int};
use crate::rd_cost::rd;
use crate::src_ops::{
    floor_cell, get_overlap_area, overlap_1d, overlap_area, round_floor, round_floor_is_floor_division, OverlapCorner,
};
use crate::tpl::search::MI_LIMIT;
use crate::tpl::{empty_stats, fits, rdcost_tpl, TplStats, MAX_TPL_LA_SW, TPL_RDMULT_SCALING_FACTOR};
use crate::types::{BlockSize, Mv};

verus! {

/// Largest quantizer index.
pub const MAXQ: i32 = 255;

/// Quantizer index of each user-facing quantizer.
pub const QUANTIZER_TO_QINDEX: [u8; 64] = [
    0, 4, 8, 12, 16, 20, 24, 28, 32, 36, 40, 44, 48, 52, 56, 60, 64, 68, 72, 76, 80, 84, 88, 92, 96, 100, 104,
    108, 112, 116, 120, 124, 128, 132, 136, 140, 144, 148, 152, 156, 160, 164, 168, 172, 176, 180, 184, 188, 192,
    196, 200, 204, 208, 212, 216, 220, 224, 228, 232, 236, 240, 244, 249, 255,
];

/// The quantizer index of a frame can be computed.
pub open spec fn qindex_fits(qp: int, offset: int, enable_tpl_qps: bool, delta_qindex: int) -> bool {
    &&& QUANTIZER_TO_QINDEX[min_int(qp, 63)] + offset <= i32::MAX
    &&& i32::MIN <= frame_qindex(qp, offset, enable_tpl_qps, delta_qindex) <= i32::MAX
}

/// Quantizer index of a frame: that of the user's quantizer, moved and
/// capped, and moved once more by the layer's offset where layers have one.
pub open spec fn frame_qindex(qp: int, offset: int, enable_tpl_qps: bool, delta_qindex: int) -> int {
    min_int(QUANTIZER_TO_QINDEX[min_int(qp, 63)] + offset, 255) + (if enable_tpl_qps {
        delta_qindex
    } else {
        0
    })
}

/// Quantizer index of a frame.
pub fn tpl_qindex(qp: u8, extended_crf_qindex_offset: i32, enable_tpl_qps: bool, delta_qindex: i32) -> (r: i32)
    requires
        qindex_fits(qp as int, extended_crf_qindex_offset as int, enable_tpl_qps, delta_qindex as int),
    ensures
        r == frame_qindex(qp as int, extended_crf_qindex_offset as int, enable_tpl_qps, delta_qindex as int),
{
    let row: usize = if qp < 63 {
        qp as usize
    } else {
        63
    };
    let moved: i32 = QUANTIZER_TO_QINDEX[row] as i32 + extended_crf_qindex_offset;
    let capped: i32 = if moved < MAXQ {
        moved
    } else {
        MAXQ
    };
    if enable_tpl_qps {
        capped + delta_qindex
    } else {
        capped
    }
}

/// The rate multiplier the model works with.
pub fn tpl_base_rdmult(rdmult: i32) -> (r: i32)
    ensures
        r == div_trunc(rdmult as int, 6),
{
    rdmult / TPL_RDMULT_SCALING_FACTOR
}

/// A picture of the window, with its grid of statistics.
pub struct TplSynthPic {
    pub picture_number: u64,
    pub aligned_width: u32,
    /// Size in units of four samples.
    pub mi_rows: i32,
    pub mi_cols: i32,
    pub stats: Vec<TplStats>,
}

/// The geometry of a picture.
pub struct PicGeo {
    pub number: u64,
    pub width: int,
    pub rows: int,
    pub cols: int,
}

impl TplSynthPic {
    /// What does not change while statistics propagate.
    pub open spec fn geo(self) -> PicGeo {
        PicGeo {
            number: self.picture_number,
            width: self.aligned_width as int,
            rows: self.mi_rows as int,
            cols: self.mi_cols as int,
        }
    }
}

/// Side of a grid cell, in units of four samples.
pub open spec fn mi_side(synth_blk_size: u8) -> int {
    if synth_blk_size == 8 {
        2
    } else if synth_blk_size == 16 {
        4
    } else {
        8
    }
}

fn cell_mi(synth_blk_size: u8) -> (r: i32)
    ensures
        r == mi_side(synth_blk_size),
        r == 2 || r == 4 || r == 8,
{
    if synth_blk_size == 8 {
        2
    } else if synth_blk_size == 16 {
        4
    } else {
        8
    }
}

/// Cells per grid row.
pub open spec fn stride_of(width: int, m: int) -> int {
    (4 * ((width + 15) / 16)) / m
}

/// Position a block is predicted from, along one axis.
pub open spec fn ref_pos(mi_pos: int, mv: int) -> int {
    4 * mi_pos + mv / 8
}

/// Row of the grid cell that quadrant `k` of a predicted block falls into.
pub open spec fn quad_row(st: TplStats, mi_row: int, m: int, k: int) -> int {
    floor_cell(ref_pos(mi_row, st.mv.y as int), 4 * m) + k / 2
}

/// Column of that cell.
pub open spec fn quad_col(st: TplStats, mi_col: int, m: int, k: int) -> int {
    floor_cell(ref_pos(mi_col, st.mv.x as int), 4 * m) + k % 2
}

/// The corner that quadrant `k` stands for.
pub open spec fn quad_corner(k: int) -> OverlapCorner {
    if k == 0 {
        OverlapCorner::UpLeft
    } else if k == 1 {
        OverlapCorner::UpRight
    } else if k == 2 {
        OverlapCorner::DownLeft
    } else {
        OverlapCorner::DownRight
    }
}

/// Samples quadrant `k` shares with its cell.
pub open spec fn quad_area(st: TplStats, mi_row: int, mi_col: int, m: int, k: int) -> int {
    overlap_area(
        quad_row(st, mi_row, m, k) * (4 * m),
        quad_col(st, mi_col, m, k) * (4 * m),
        ref_pos(mi_row, st.mv.y as int),
        ref_pos(mi_col, st.mv.x as int),
        quad_corner(k),
        4 * m,
        4 * m,
    )
}

/// The cell lies in the picture.
pub open spec fn cell_in_picture(g: PicGeo, row: int, col: int, m: int) -> bool {
    0 <= row && row * m < g.rows && 0 <= col && col * m < g.cols
}

/// Distortion a block passes on to its reference: what reconstruction added
/// over the source, and the same share of what others owe to the block.
pub open spec fn dist_passed_on(st: TplStats) -> int {
    st.recrf_dist - st.srcrf_dist + div_trunc(
        st.mc_dep_dist * (st.recrf_dist - st.srcrf_dist),
        st.recrf_dist as int,
    )
}

/// Rate a block passes on, given the rate `carried` over from its own
/// dependents.
pub open spec fn rate_passed_on(st: TplStats, carried: int) -> int {
    st.recrf_rate - st.srcrf_rate + carried
}

/// `amount` in proportion to the samples a quadrant shares with its cell.
pub open spec fn share_of(amount: int, area: int, m: int) -> int {
    div_trunc(amount * area, 16 * (m * m))
}

/// What can be passed on is computed without overflow.
pub open spec fn amounts_fit(st: TplStats, carried: int) -> bool {
    &&& st.recrf_dist > 0
    &&& fits(st.recrf_dist - st.srcrf_dist)
    &&& fits(st.mc_dep_dist * (st.recrf_dist - st.srcrf_dist))
    &&& fits(dist_passed_on(st))
    &&& fits(st.recrf_rate - st.srcrf_rate)
    &&& fits(rate_passed_on(st, carried))
}

/// Position of the cell of quadrant `k` in the grid.
pub open spec fn quad_cell(g: PicGeo, st: TplStats, mi_row: int, mi_col: int, m: int, k: int) -> int {
    quad_row(st, mi_row, m, k) * stride_of(g.width, m) + quad_col(st, mi_col, m, k)
}

/// The grid after quadrant `k` has passed on its share.
pub open spec fn deposit(
    grid: Seq<TplStats>,
    g: PicGeo,
    m: int,
    st: TplStats,
    carried: int,
    mi_row: int,
    mi_col: int,
    k: int,
) -> Seq<TplStats> {
    let at = quad_cell(g, st, mi_row, mi_col, m, k);
    let area = quad_area(st, mi_row, mi_col, m, k);
    if cell_in_picture(g, quad_row(st, mi_row, m, k), quad_col(st, mi_col, m, k), m) {
        grid.update(
            at,
            TplStats {
                mc_dep_dist: (grid[at].mc_dep_dist + share_of(dist_passed_on(st), area, m)) as i64,
                mc_dep_rate: (grid[at].mc_dep_rate + share_of(rate_passed_on(st, carried), area, m)) as i64,
                ..grid[at]
            },
        )
    } else {
        grid
    }
}

/// Quadrant `k` passes on its share without overflow.
pub open spec fn deposit_fits(
    grid: Seq<TplStats>,
    g: PicGeo,
    m: int,
    st: TplStats,
    carried: int,
    mi_row: int,
    mi_col: int,
    k: int,
) -> bool {
    let at = quad_cell(g, st, mi_row, mi_col, m, k);
    let area = quad_area(st, mi_row, mi_col, m, k);
    cell_in_picture(g, quad_row(st, mi_row, m, k), quad_col(st, mi_col, m, k), m) ==> {
        &&& fits(dist_passed_on(st) * area)
        &&& fits(rate_passed_on(st, carried) * area)
        &&& fits(grid[at].mc_dep_dist + share_of(dist_passed_on(st), area, m))
        &&& fits(grid[at].mc_dep_rate + share_of(rate_passed_on(st, carried), area, m))
    }
}

/// The grid of a reference after the first `n` quadrants of a block.
pub open spec fn spread(
    grid: Seq<TplStats>,
    g: PicGeo,
    m: int,
    st: TplStats,
    carried: int,
    mi_row: int,
    mi_col: int,
    n: int,
) -> Seq<TplStats>
    decreases n,
{
    if n <= 0 {
        grid
    } else {
        deposit(spread(grid, g, m, st, carried, mi_row, mi_col, n - 1), g, m, st, carried, mi_row, mi_col, n - 1)
    }
}

/// The first `n` quadrants pass on their shares without overflow.
pub open spec fn spread_fits(
    grid: Seq<TplStats>,
    g: PicGeo,
    m: int,
    st: TplStats,
    carried: int,
    mi_row: int,
    mi_col: int,
    n: int,
) -> bool
    decreases n,
{
    n > 0 ==> {
        &&& spread_fits(grid, g, m, st, carried, mi_row, mi_col, n - 1)
        &&& deposit_fits(
            spread(grid, g, m, st, carried, mi_row, mi_col, n - 1),
            g,
            m,
            st,
            carried,
            mi_row,
            mi_col,
            n - 1,
        )
    }
}

/// Every cell of the picture has a place in the grid.
pub open spec fn geo_ok(g: PicGeo, m: int, len: int) -> bool {
    &&& 0 <= g.rows <= MI_LIMIT
    &&& 0 <= g.cols <= MI_LIMIT
    &&& 0 <= g.width <= 4 * MI_LIMIT
    &&& forall|row: int, col: int|
        cell_in_picture(g, row, col, m) ==> 0 <= #[trigger] cell_index(g, m, row, col) < len
}

/// Position of a cell in the grid.
pub open spec fn cell_index(g: PicGeo, m: int, row: int, col: int) -> int {
    row * stride_of(g.width, m) + col
}

fn synth_stride(aligned_width: u32, m: i32) -> (r: usize)
    requires
        aligned_width <= 4 * MI_LIMIT,
        m == 2 || m == 4 || m == 8,
    ensures
        r == stride_of(aligned_width as int, m as int),
{
    let cols: u32 = 4 * ((aligned_width + 15) / 16);
    if m == 2 {
        (cols / 2) as usize
    } else if m == 4 {
        (cols / 4) as usize
    } else {
        (cols / 8) as usize
    }
}

fn share(amount: i64, area: i32, m: i32) -> (r: i64)
    requires
        fits(amount * area),
        m == 2 || m == 4 || m == 8,
    ensures
        r == share_of(amount as int, area as int, m as int),
{
    let product: i64 = amount * area as i64;
    if m == 2 {
        product / 64
    } else if m == 4 {
        product / 256
    } else {
        product / 1024
    }
}

fn block_of(m: i32) -> (r: BlockSize)
    requires
        m == 2 || m == 4 || m == 8,
    ensures
        r.wide_spec() == 4 * m,
        r.high_spec() == 4 * m,
{
    if m == 2 {
        BlockSize::Block8x8
    } else if m == 4 {
        BlockSize::Block16x16
    } else {
        BlockSize::Block32x32
    }
}

fn cell_floor(pos: i32, b: i32) -> (r: i32)
    requires
        -0x200_0000 <= pos <= 0x200_0000,
        b == 8 || b == 16 || b == 32,
    ensures
        r == floor_cell(pos as int, b as int),
        r * b <= pos < r * b + b,
        -0x200_0000 <= r <= 0x200_0000,
{
    proof {
        round_floor_is_floor_division(pos as int, b as int);
        let q = pos as int / b as int;
        lemma_fundamental_div_mod(pos as int, b as int);
        if b == 8 {
        } else if b == 16 {
        } else {
        }
    }
    match round_floor(pos, b) {
        Some(q) => q,
        None => 0,
    }
}

/// Passes on what a block owes to its reference: each of the four cells the
/// predicted block touches gets a share in proportion to the overlap.
pub fn tpl_model_update_b(
    ref_pic: &mut TplSynthPic,
    synth_blk_size: u8,
    tpl_stats: &TplStats,
    carried_rate: i64,
    mi_row: i32,
    mi_col: i32,
)
    requires
        0 <= mi_row <= 2 * MI_LIMIT,
        0 <= mi_col <= 2 * MI_LIMIT,
        geo_ok(old(ref_pic).geo(), mi_side(synth_blk_size), old(ref_pic).stats@.len() as int),
        amounts_fit(*tpl_stats, carried_rate as int),
        spread_fits(
            old(ref_pic).stats@,
            old(ref_pic).geo(),
            mi_side(synth_blk_size),
            *tpl_stats,
            carried_rate as int,
            mi_row as int,
            mi_col as int,
            4,
        ),
    ensures
        final(ref_pic).geo() == old(ref_pic).geo(),
        final(ref_pic).stats@ == spread(
            old(ref_pic).stats@,
            old(ref_pic).geo(),
            mi_side(synth_blk_size),
            *tpl_stats,
            carried_rate as int,
            mi_row as int,
            mi_col as int,
            4,
        ),
{
    let m: i32 = cell_mi(synth_blk_size);
    let b: i32 = 4 * m;
    let st: TplStats = *tpl_stats;
    let ghost g = ref_pic.geo();
    let ghost grid0 = ref_pic.stats@;
    let ghost carried = carried_rate as int;
    proof {
        vstd::arithmetic::power2::lemma2_to64();
    }
    let row: i32 = mi_row * 4 + crate::arith::shr_i32(st.mv.y as i32, 3);
    let col: i32 = mi_col * 4 + crate::arith::shr_i32(st.mv.x as i32, 3);
    let first_row: i32 = cell_floor(row, b);
    let first_col: i32 = cell_floor(col, b);
    let stride: usize = synth_stride(ref_pic.aligned_width, m);
    let cur_dep_dist: i64 = st.recrf_dist - st.srcrf_dist;
    let passed_dist: i64 = cur_dep_dist + (st.mc_dep_dist * cur_dep_dist) / st.recrf_dist;
    let passed_rate: i64 = st.recrf_rate - st.srcrf_rate + carried_rate;
    let bsize: BlockSize = block_of(m);
    let mut k: i32 = 0;
    while k < 4
        invariant
            0 <= k <= 4,
            m == mi_side(synth_blk_size),
            m == 2 || m == 4 || m == 8,
            b == 4 * m,
            g == ref_pic.geo(),
            g == old(ref_pic).geo(),
            st == *tpl_stats,
            carried == carried_rate,
            stride == stride_of(g.width, m as int),
            row == ref_pos(mi_row as int, st.mv.y as int),
            col == ref_pos(mi_col as int, st.mv.x as int),
            first_row == floor_cell(row as int, b as int),
            first_col == floor_cell(col as int, b as int),
            first_row * b <= row < first_row * b + b,
            first_col * b <= col < first_col * b + b,
            -0x100_0000 <= row <= 0x100_0000,
            -0x100_0000 <= col <= 0x100_0000,
            -0x200_0000 <= first_row <= 0x200_0000,
            -0x200_0000 <= first_col <= 0x200_0000,
            passed_dist == dist_passed_on(st),
            passed_rate == rate_passed_on(st, carried),
            bsize.wide_spec() == b,
            bsize.high_spec() == b,
            geo_ok(g, m as int, grid0.len() as int),
            ref_pic.stats@.len() == grid0.len(),
            ref_pic.stats@ == spread(grid0, g, m as int, st, carried, mi_row as int, mi_col as int, k as int),
            spread_fits(grid0, g, m as int, st, carried, mi_row as int, mi_col as int, 4),
        decreases 4 - k,
    {
        let (down, right): (i32, i32) = (k / 2, k % 2);
        let cell_row: i32 = first_row + down;
        let cell_col: i32 = first_col + right;
        assert(cell_row == quad_row(st, mi_row as int, m as int, k as int));
        assert(cell_col == quad_col(st, mi_col as int, m as int, k as int));
        assert(spread_fits(grid0, g, m as int, st, carried, mi_row as int, mi_col as int, k + 1)) by {
            lemma_spread_prefix(grid0, g, m as int, st, carried, mi_row as int, mi_col as int, k + 1, 4);
        }
        let inside: bool = cell_row >= 0 && cell_col >= 0 && {
            let r: i64 = cell_row as i64 * m as i64;
            let c: i64 = cell_col as i64 * m as i64;
            r < ref_pic.mi_rows as i64 && c < ref_pic.mi_cols as i64
        };
        assert(inside == cell_in_picture(g, cell_row as int, cell_col as int, m as int));
        if inside {
            let corner: OverlapCorner = if k == 0 {
                OverlapCorner::UpLeft
            } else if k == 1 {
                OverlapCorner::UpRight
            } else if k == 2 {
                OverlapCorner::DownLeft
            } else {
                OverlapCorner::DownRight
            };
            proof {
                assert(cell_row * b == first_row * b + down * b) by {
                    vstd::arithmetic::mul::lemma_mul_is_distributive_add_other_way(
                        b as int,
                        first_row as int,
                        down as int,
                    );
                }
                assert(cell_col * b == first_col * b + right * b) by {
                    vstd::arithmetic::mul::lemma_mul_is_distributive_add_other_way(
                        b as int,
                        first_col as int,
                        right as int,
                    );
                }
                assert(0 <= down * b <= b && 0 <= right * b <= b) by (nonlinear_arith)
                    requires
                        0 <= down <= 1,
                        0 <= right <= 1,
                        b >= 0,
                ;
            }
            proof {
                let w = overlap_1d(cell_col * b, col as int, corner.right(), bsize.wide_spec());
                let h = overlap_1d(cell_row * b, row as int, corner.down(), bsize.high_spec());
                lemma_product_range(w, h, 0xb480);
            }
            let area: i32 = get_overlap_area(cell_row * b, cell_col * b, row, col, corner, bsize);
            assert(area == quad_area(st, mi_row as int, mi_col as int, m as int, k as int));
            proof {
                assert(0 <= cell_index(g, m as int, cell_row as int, cell_col as int) < grid0.len());
                lemma_mul_nonnegative(cell_row as int, stride as int);
            }
            let len: usize = ref_pic.stats.len();
            assert(cell_row * stride + cell_col < len);
            let at: usize = cell_row as usize * stride + cell_col as usize;
            let old_cell: TplStats = ref_pic.stats[at];
            let new_cell: TplStats = TplStats {
                mc_dep_dist: old_cell.mc_dep_dist + share(passed_dist, area, m),
                mc_dep_rate: old_cell.mc_dep_rate + share(passed_rate, area, m),
                ..old_cell
            };
            ref_pic.stats[at] = new_cell;
        }
        k = k + 1;
    }
}

proof fn lemma_spread_prefix(
    grid: Seq<TplStats>,
    g: PicGeo,
    m: int,
    st: TplStats,
    carried: int,
    mi_row: int,
    mi_col: int,
    k: int,
    n: int,
)
    requires
        0 <= k <= n,
        spread_fits(grid, g, m, st, carried, mi_row, mi_col, n),
    ensures
        spread_fits(grid, g, m, st, carried, mi_row, mi_col, k),
    decreases n,
{
    if k < n {
        lemma_spread_prefix(grid, g, m, st, carried, mi_row, mi_col, k, n - 1);
    }
}

/// The geometries of a window.
pub open spec fn geos(pics: Seq<TplSynthPic>) -> Seq<PicGeo> {
    Seq::new(pics.len(), |i: int| pics[i].geo())
}

/// The grids of a window.
pub open spec fn grids(pics: Seq<TplSynthPic>) -> Seq<Seq<TplStats>> {
    Seq::new(pics.len(), |i: int| pics[i].stats@)
}

/// The first picture from `i` on with the given number, or `n`.
pub open spec fn find_from(gs: Seq<PicGeo>, i: int, n: int, number: u64) -> int
    decreases n - i,
{
    if i >= n {
        n
    } else if gs[i].number == number {
        i
    } else {
        find_from(gs, i + 1, n, number)
    }
}

/// The grids of a window in the middle of a block, and how far the search for
/// references has advanced.
pub struct WalkState {
    pub grids: Seq<Seq<TplStats>>,
    pub i: int,
}

/// The window after one cell, at a position in units of four samples. The
/// search for its reference goes on where the one before it ended.
pub open spec fn cell_step(
    ws: WalkState,
    gs: Seq<PicGeo>,
    m: int,
    st: TplStats,
    carried: int,
    mi_row: int,
    mi_col: int,
    n: int,
) -> WalkState {
    let i = find_from(gs, ws.i, n, st.ref_frame_poc);
    if i < n {
        WalkState {
            grids: ws.grids.update(i, spread(ws.grids[i], gs[i], m, st, carried, mi_row, mi_col, 4)),
            i,
        }
    } else {
        WalkState { grids: ws.grids, i }
    }
}

/// The cell is passed on without overflow.
pub open spec fn cell_fits(
    ws: WalkState,
    gs: Seq<PicGeo>,
    m: int,
    st: TplStats,
    carried: int,
    mi_row: int,
    mi_col: int,
    n: int,
) -> bool {
    let i = find_from(gs, ws.i, n, st.ref_frame_poc);
    i < n ==> amounts_fit(st, carried) && spread_fits(ws.grids[i], gs[i], m, st, carried, mi_row, mi_col, 4)
}

/// A block of cells: its place and the statistics it is made of.
pub struct CellBlock {
    pub mi_row: int,
    pub mi_col: int,
    /// Cells per row.
    pub wide: int,
    pub cells: Seq<TplStats>,
}

impl CellBlock {
    pub open spec fn row(self, m: int, k: int) -> int {
        self.mi_row + (k / self.wide) * m
    }

    pub open spec fn col(self, m: int, k: int) -> int {
        self.mi_col + (k % self.wide) * m
    }
}

/// The rate each block carries over.
pub type Carry = spec_fn(TplStats) -> int;

/// The window after the first `k` cells of a block.
pub open spec fn cells_walk(
    g0: Seq<Seq<TplStats>>,
    gs: Seq<PicGeo>,
    m: int,
    blk: CellBlock,
    carry: Carry,
    n: int,
    k: int,
) -> WalkState
    decreases k,
{
    if k <= 0 {
        WalkState { grids: g0, i: 0 }
    } else {
        cell_step(
            cells_walk(g0, gs, m, blk, carry, n, k - 1),
            gs,
            m,
            blk.cells[k - 1],
            carry(blk.cells[k - 1]),
            blk.row(m, k - 1),
            blk.col(m, k - 1),
            n,
        )
    }
}

/// The first `k` cells of a block are passed on without overflow.
pub open spec fn cells_fit(
    g0: Seq<Seq<TplStats>>,
    gs: Seq<PicGeo>,
    m: int,
    blk: CellBlock,
    carry: Carry,
    n: int,
    k: int,
) -> bool
    decreases k,
{
    k > 0 ==> {
        &&& cells_fit(g0, gs, m, blk, carry, n, k - 1)
        &&& cell_fits(
            cells_walk(g0, gs, m, blk, carry, n, k - 1),
            gs,
            m,
            blk.cells[k - 1],
            carry(blk.cells[k - 1]),
            blk.row(m, k - 1),
            blk.col(m, k - 1),
            n,
        )
    }
}

/// What `cost` returns; zero where it returns nothing.
pub open spec fn result_of<F: Fn(i64, i64, i64, i64) -> i64>(cost: F, a: i64, b: i64, c: i64, d: i64) -> i64 {
    if exists|r: i64| #[trigger] call_ensures(cost, (a, b, c, d), r) {
        choose|r: i64| #[trigger] call_ensures(cost, (a, b, c, d), r)
    } else {
        0
    }
}

/// The rate a block carries over: what `cost` makes of the rate that others
/// owe to it, or nothing.
pub open spec fn carried_by<F: Fn(i64, i64, i64, i64) -> i64>(cost: F, compute_rate: bool, m: int) -> Carry {
    |st: TplStats|
        if compute_rate {
            result_of(cost, st.mc_dep_rate, st.recrf_dist, st.srcrf_dist, (16 * (m * m)) as i64) as int
        } else {
            0
        }
}

/// `cost` has returned the rate of every one of the first `k` cells of a block
/// whose reference is in the window.
pub open spec fn cells_priced<F: Fn(i64, i64, i64, i64) -> i64>(
    g0: Seq<Seq<TplStats>>,
    gs: Seq<PicGeo>,
    m: int,
    blk: CellBlock,
    cost: F,
    n: int,
    k: int,
) -> bool {
    forall|j: int|
        0 <= j < k && cells_walk(g0, gs, m, blk, carried_by(cost, true, m), n, j + 1).i < n ==> {
            let st = #[trigger] blk.cells[j];
            let d = (16 * (m * m)) as i64;
            call_ensures(
                cost,
                (st.mc_dep_rate, st.recrf_dist, st.srcrf_dist, d),
                result_of(cost, st.mc_dep_rate, st.recrf_dist, st.srcrf_dist, d),
            )
        }
}

/// `cost` has returned the rates of the cells of a block.
pub open spec fn block_priced<F: Fn(i64, i64, i64, i64) -> i64>(
    g: Seq<Seq<TplStats>>,
    gs: Seq<PicGeo>,
    m: int,
    frame: int,
    mi_row: int,
    mi_col: int,
    bsize: BlockSize,
    cost: F,
    n: int,
) -> bool {
    let blk = block_at(g[frame], gs[frame], m, mi_row, mi_col, bsize);
    cells_priced(g, gs, m, blk, cost, n, blk.cells.len() as int)
}

/// `cost` is a function of its arguments, defined everywhere.
pub open spec fn is_function<F: Fn(i64, i64, i64, i64) -> i64>(cost: F) -> bool {
    &&& forall|a: i64, b: i64, c: i64, d: i64| #[trigger] call_requires(cost, (a, b, c, d))
    &&& forall|a: i64, b: i64, c: i64, d: i64, r1: i64, r2: i64|
        #[trigger] call_ensures(cost, (a, b, c, d), r1) && #[trigger] call_ensures(cost, (a, b, c, d), r2) ==> r1
            == r2
}

/// Cells per side of a block of the given side.
pub open spec fn cells_across(mi: int, m: int) -> int {
    (mi + m - 1) / m
}

/// The cells of the block at a position, row by row.
pub open spec fn block_at(grid: Seq<TplStats>, g: PicGeo, m: int, mi_row: int, mi_col: int, bsize: BlockSize) -> CellBlock {
    let wide = cells_across(bsize.wide_spec() / 4, m);
    let high = cells_across(bsize.high_spec() / 4, m);
    CellBlock {
        mi_row,
        mi_col,
        wide,
        cells: Seq::new(
            (wide * high) as nat,
            |k: int| grid[cell_index(g, m, (mi_row + (k / wide) * m) / m, (mi_col + (k % wide) * m) / m)],
        ),
    }
}

/// Position in the grid of a cell of the block at a position.
pub open spec fn block_cell(g: PicGeo, m: int, mi_row: int, mi_col: int, y: int, x: int) -> int {
    cell_index(g, m, (mi_row + y * m) / m, (mi_col + x * m) / m)
}

/// The grid holds the cells of the block at a position.
pub open spec fn holds_cells(g: PicGeo, m: int, mi_row: int, mi_col: int, bsize: BlockSize, len: int) -> bool {
    forall|y: int, x: int|
        0 <= y < cells_across(bsize.high_spec() / 4, m) && 0 <= x < cells_across(bsize.wide_spec() / 4, m) ==> 0
            <= #[trigger] block_cell(g, m, mi_row, mi_col, y, x) < len
}

/// The grid holds the cells of a block, given by its place among the blocks
/// of the picture.
pub open spec fn holds_block(g: PicGeo, m: int, r: int, c: int, bsize: BlockSize, len: int) -> bool {
    holds_cells(g, m, r * (bsize.high_spec() / 4), c * (bsize.wide_spec() / 4), bsize, len)
}

/// The grid holds the cells of every block of the picture.
pub open spec fn holds_blocks(g: PicGeo, m: int, bsize: BlockSize, len: int) -> bool {
    forall|r: int, c: int|
        0 <= r < blocks_down(g.rows, bsize) && 0 <= c < blocks_across(g.cols, bsize) ==> #[trigger] holds_block(
            g,
            m,
            r,
            c,
            bsize,
            len,
        )
}

/// The grids of two windows have the same sizes.
pub open spec fn same_sizes(a: Seq<Seq<TplStats>>, b: Seq<Seq<TplStats>>) -> bool {
    &&& a.len() == b.len()
    &&& forall|i: int| 0 <= i < a.len() ==> (#[trigger] a[i]).len() == b[i].len()
}

/// The grids of a window after a block of one of its frames.
pub open spec fn block_walk(
    g0: Seq<Seq<TplStats>>,
    gs: Seq<PicGeo>,
    m: int,
    frame: int,
    mi_row: int,
    mi_col: int,
    bsize: BlockSize,
    carry: Carry,
    n: int,
) -> Seq<Seq<TplStats>> {
    let blk = block_at(g0[frame], gs[frame], m, mi_row, mi_col, bsize);
    cells_walk(g0, gs, m, blk, carry, n, blk.cells.len() as int).grids
}

/// A block of one of the frames is passed on without overflow.
pub open spec fn block_fits(
    g0: Seq<Seq<TplStats>>,
    gs: Seq<PicGeo>,
    m: int,
    frame: int,
    mi_row: int,
    mi_col: int,
    bsize: BlockSize,
    carry: Carry,
    n: int,
) -> bool {
    let blk = block_at(g0[frame], gs[frame], m, mi_row, mi_col, bsize);
    cells_fit(g0, gs, m, blk, carry, n, blk.cells.len() as int)
}

/// Every picture of a window has a grid of the right size.
pub open spec fn window_ok(g0: Seq<Seq<TplStats>>, gs: Seq<PicGeo>, m: int) -> bool {
    &&& g0.len() == gs.len()
    &&& forall|i: int| 0 <= i < gs.len() ==> geo_ok(#[trigger] gs[i], m, g0[i].len() as int)
}

proof fn lemma_cells_prefix(
    g0: Seq<Seq<TplStats>>,
    gs: Seq<PicGeo>,
    m: int,
    blk: CellBlock,
    carry: Carry,
    n: int,
    k: int,
    l: int,
)
    requires
        0 <= k <= l,
        cells_fit(g0, gs, m, blk, carry, n, l),
    ensures
        cells_fit(g0, gs, m, blk, carry, n, k),
    decreases l,
{
    if k < l {
        lemma_cells_prefix(g0, gs, m, blk, carry, n, k, l - 1);
    }
}

fn across(mi: i32, m: i32) -> (r: i32)
    requires
        1 <= mi <= 8,
        m == 2 || m == 4 || m == 8,
    ensures
        r == cells_across(mi as int, m as int),
        1 <= r <= 4,
        (r - 1) * m < 8,
{
    if m == 2 {
        (mi + 1) / 2
    } else if m == 4 {
        (mi + 3) / 4
    } else {
        (mi + 7) / 8
    }
}

fn read_cells(pic: &TplSynthPic, m: i32, mi_row: i32, mi_col: i32, bsize: BlockSize) -> (r: Vec<TplStats>)
    requires
        m == 2 || m == 4 || m == 8,
        pic.aligned_width <= 4 * MI_LIMIT,
        0 <= mi_row <= MI_LIMIT,
        0 <= mi_col <= MI_LIMIT,
        holds_cells(pic.geo(), m as int, mi_row as int, mi_col as int, bsize, pic.stats@.len() as int),
        bsize.wide_spec() <= 32,
        bsize.high_spec() <= 32,
    ensures
        r@ == block_at(pic.stats@, pic.geo(), m as int, mi_row as int, mi_col as int, bsize).cells,
        r@.len() <= 16,
{
    let ghost g = pic.geo();
    let ghost blk = block_at(pic.stats@, g, m as int, mi_row as int, mi_col as int, bsize);
    let wide: i32 = across((bsize.wide() / 4) as i32, m);
    let high: i32 = across((bsize.high() / 4) as i32, m);
    let stride: usize = synth_stride(pic.aligned_width, m);
    let len: usize = pic.stats.len();
    let mut r: Vec<TplStats> = Vec::new();
    let mut y: i32 = 0;
    while y < high
        invariant
            0 <= y <= high,
            1 <= wide <= 4,
            1 <= high <= 4,
            (wide - 1) * m < 8,
            (high - 1) * m < 8,
            m == 2 || m == 4 || m == 8,
            g == pic.geo(),
            len == pic.stats@.len(),
            stride == stride_of(g.width, m as int),
            0 <= mi_row <= MI_LIMIT,
            0 <= mi_col <= MI_LIMIT,
            holds_cells(g, m as int, mi_row as int, mi_col as int, bsize, len as int),
            blk == block_at(pic.stats@, g, m as int, mi_row as int, mi_col as int, bsize),
            wide == cells_across(bsize.wide_spec() / 4, m as int),
            high == cells_across(bsize.high_spec() / 4, m as int),
            r@.len() == y * wide,
            forall|k: int| 0 <= k < y * wide ==> #[trigger] r@[k] == blk.cells[k],
        decreases high - y,
    {
        let mut x: i32 = 0;
        while x < wide
            invariant
                0 <= y < high,
                0 <= x <= wide,
                1 <= wide <= 4,
                1 <= high <= 4,
                (wide - 1) * m < 8,
                (high - 1) * m < 8,
                m == 2 || m == 4 || m == 8,
                g == pic.geo(),
                len == pic.stats@.len(),
                stride == stride_of(g.width, m as int),
                0 <= mi_row <= MI_LIMIT,
                0 <= mi_col <= MI_LIMIT,
                holds_cells(g, m as int, mi_row as int, mi_col as int, bsize, len as int),
                blk == block_at(pic.stats@, g, m as int, mi_row as int, mi_col as int, bsize),
                wide == cells_across(bsize.wide_spec() / 4, m as int),
                high == cells_across(bsize.high_spec() / 4, m as int),
                r@.len() == y * wide + x,
                forall|k: int| 0 <= k < y * wide + x ==> #[trigger] r@[k] == blk.cells[k],
            decreases wide - x,
        {
            proof {
                crate::arith::lemma_raster_index(y as int, x as int, wide as int);
                crate::arith::lemma_raster_bounds(y as int, x as int, wide as int, high as int);
                lemma_mul_inequality(y as int, high - 1, m as int);
                lemma_mul_inequality(x as int, wide - 1, m as int);
                lemma_mul_nonnegative(y as int, m as int);
                lemma_mul_nonnegative(x as int, m as int);
            }
            let row: i32 = (mi_row + y * m) / m;
            let col: i32 = (mi_col + x * m) / m;
            proof {
                lemma_floor_times(mi_row + y * m, m as int);
                lemma_floor_times(mi_col + x * m, m as int);
                assert(0 <= block_cell(g, m as int, mi_row as int, mi_col as int, y as int, x as int) < len);
                lemma_mul_nonnegative(row as int, stride as int);
            }
            let at: usize = row as usize * stride + col as usize;
            r.push(pic.stats[at]);
            x = x + 1;
        }
        proof {
            vstd::arithmetic::mul::lemma_mul_is_distributive_add_other_way(wide as int, y as int, 1);
        }
        y = y + 1;
    }
    proof {
        lemma_mul_is_commutative(wide as int, high as int);
        assert(wide * high <= 16) by (nonlinear_arith)
            requires
                0 <= wide <= 4,
                0 <= high <= 4,
        ;
    }
    r
}

proof fn lemma_floor_times(x: int, m: int)
    requires
        x >= 0,
        m > 0,
    ensures
        0 <= x / m,
        (x / m) * m <= x,
{
    lemma_fundamental_div_mod(x, m);
    lemma_div_pos_is_pos(x, m);
    lemma_mul_is_commutative(x / m, m);
}

/// Passes on what the cells of a block owe to their references, among the
/// first `frames_in_sw` pictures of the window. The reference of a cell is
/// looked for from the one of the cell before it on.
pub fn tpl_model_update<F: Fn(i64, i64, i64, i64) -> i64>(
    pics: &mut Vec<TplSynthPic>,
    frame_idx: usize,
    mi_row: i32,
    mi_col: i32,
    bsize: BlockSize,
    frames_in_sw: usize,
    synth_blk_size: u8,
    compute_rate: bool,
    cost: &F,
)
    requires
        compute_rate ==> is_function(*cost),
        frame_idx < old(pics)@.len(),
        frames_in_sw <= old(pics)@.len(),
        window_ok(grids(old(pics)@), geos(old(pics)@), mi_side(synth_blk_size)),
        0 <= mi_row <= MI_LIMIT,
        0 <= mi_col <= MI_LIMIT,
        bsize.wide_spec() <= 32,
        bsize.high_spec() <= 32,
        holds_cells(
            old(pics)@[frame_idx as int].geo(),
            mi_side(synth_blk_size),
            mi_row as int,
            mi_col as int,
            bsize,
            old(pics)@[frame_idx as int].stats@.len() as int,
        ),
        block_fits(
            grids(old(pics)@),
            geos(old(pics)@),
            mi_side(synth_blk_size),
            frame_idx as int,
            mi_row as int,
            mi_col as int,
            bsize,
            carried_by(*cost, compute_rate, mi_side(synth_blk_size)),
            frames_in_sw as int,
        ),
    ensures
        final(pics)@.len() == old(pics)@.len(),
        geos(final(pics)@) == geos(old(pics)@),
        window_ok(grids(final(pics)@), geos(final(pics)@), mi_side(synth_blk_size)),
        same_sizes(grids(final(pics)@), grids(old(pics)@)),
        grids(final(pics)@) == block_walk(
            grids(old(pics)@),
            geos(old(pics)@),
            mi_side(synth_blk_size),
            frame_idx as int,
            mi_row as int,
            mi_col as int,
            bsize,
            carried_by(*cost, compute_rate, mi_side(synth_blk_size)),
            frames_in_sw as int,
        ),
        compute_rate ==> block_priced(
            grids(old(pics)@),
            geos(old(pics)@),
            mi_side(synth_blk_size),
            frame_idx as int,
            mi_row as int,
            mi_col as int,
            bsize,
            *cost,
            frames_in_sw as int,
        ),
{
    let m: i32 = cell_mi(synth_blk_size);
    let ghost gs = geos(pics@);
    let ghost g0 = grids(pics@);
    let ghost n = frames_in_sw as int;
    let ghost carry = carried_by(*cost, compute_rate, m as int);
    let ghost blk = block_at(g0[frame_idx as int], gs[frame_idx as int], m as int, mi_row as int, mi_col as int, bsize);
    assert(geo_ok(gs[frame_idx as int], m as int, g0[frame_idx as int].len() as int));
    let cells: Vec<TplStats> = read_cells(&pics[frame_idx], m, mi_row, mi_col, bsize);
    let wide: i32 = across((bsize.wide() / 4) as i32, m);
    let count: usize = cells.len();
    let pix_num: i64 = if m == 2 {
        64
    } else if m == 4 {
        256
    } else {
        1024
    };
    let mut i: usize = 0;
    let mut k: usize = 0;
    assert(g0 == grids(pics@));
    while k < count
        invariant
            k <= count,
            count == cells@.len(),
            count <= 16,
            compute_rate ==> is_function(*cost),
            m == mi_side(synth_blk_size),
            m == 2 || m == 4 || m == 8,
            pix_num == 16 * (m * m),
            1 <= wide,
            wide == blk.wide,
            cells@ == blk.cells,
            blk.mi_row == mi_row,
            blk.mi_col == mi_col,
            0 <= mi_row <= MI_LIMIT,
            0 <= mi_col <= MI_LIMIT,
            n == frames_in_sw,
            frames_in_sw <= pics@.len(),
            pics@.len() == gs.len(),
            geos(pics@) == gs,
            window_ok(grids(pics@), gs, m as int),
            same_sizes(grids(pics@), g0),
            carry == carried_by(*cost, compute_rate, m as int),
            i <= n,
            cells_fit(g0, gs, m as int, blk, carry, n, count as int),
            grids(pics@) == cells_walk(g0, gs, m as int, blk, carry, n, k as int).grids,
            i == cells_walk(g0, gs, m as int, blk, carry, n, k as int).i,
            compute_rate ==> cells_priced(g0, gs, m as int, blk, *cost, n, k as int),
        decreases count - k,
    {
        let st: TplStats = cells[k];
        let ghost ws = cells_walk(g0, gs, m as int, blk, carry, n, k as int);
        proof {
            lemma_cells_prefix(g0, gs, m as int, blk, carry, n, k + 1, count as int);
        }
        let ghost i0 = i as int;
        while i < frames_in_sw && pics[i].picture_number != st.ref_frame_poc
            invariant
                i <= frames_in_sw <= pics@.len(),
                pics@.len() == gs.len(),
                geos(pics@) == gs,
                n == frames_in_sw,
                find_from(gs, i as int, n, st.ref_frame_poc) == find_from(gs, i0, n, st.ref_frame_poc),
            decreases frames_in_sw - i,
        {
            assert(gs[i as int].number == pics@[i as int].picture_number);
            i = i + 1;
        }
        if i < frames_in_sw {
            assert(gs[i as int].number == pics@[i as int].picture_number);
            assert(find_from(gs, i0, n, st.ref_frame_poc) == i);
            let carried: i64 = if compute_rate {
                cost(st.mc_dep_rate, st.recrf_dist, st.srcrf_dist, pix_num)
            } else {
                0
            };
            assert(carried == carry(st));
            let kw: i32 = k as i32;
            proof {
                lemma_small_steps(kw as int, wide as int, m as int);
                assert(grids(pics@)[i as int] == pics@[i as int].stats@);
                assert(geo_ok(gs[i as int], m as int, grids(pics@)[i as int].len() as int));
            }
            let ghost before = pics@;
            tpl_model_update_b(
                &mut pics[i],
                synth_blk_size,
                &st,
                carried,
                mi_row + (kw / wide) * m,
                mi_col + (kw % wide) * m,
            );
            proof {
                assert(geos(pics@) =~= gs);
                assert(grids(pics@) =~= grids(before).update(i as int, pics@[i as int].stats@));
                lemma_spread_len(
                    before[i as int].stats@,
                    gs[i as int],
                    m as int,
                    st,
                    carried as int,
                    mi_row + (kw as int / wide as int) * m,
                    mi_col + (kw as int % wide as int) * m,
                    4,
                );
                assert forall|j: int| 0 <= j < gs.len() implies geo_ok(
                    #[trigger] gs[j],
                    m as int,
                    grids(pics@)[j].len() as int,
                ) by {
                    assert(geo_ok(gs[j], m as int, grids(before)[j].len() as int));
                }
            }
        }
        k = k + 1;
    }
}

proof fn lemma_small_steps(k: int, wide: int, m: int)
    requires
        0 <= k <= 16,
        1 <= wide,
        2 <= m <= 8,
    ensures
        0 <= (k / wide) * m <= 128,
        0 <= (k % wide) * m <= 128,
        0 <= k / wide <= 16,
        0 <= k % wide <= 16,
{
    lemma_div_pos_is_pos(k, wide);
    vstd::arithmetic::div_mod::lemma_div_nonincreasing(k, wide);
    vstd::arithmetic::div_mod::lemma_mod_decreases(k as nat, wide as nat);
    vstd::arithmetic::mul::lemma_mul_upper_bound(k / wide, 16, m, 8);
    vstd::arithmetic::mul::lemma_mul_upper_bound(k % wide, 16, m, 8);
    lemma_mul_nonnegative(k / wide, m);
    lemma_mul_nonnegative(k % wide, m);
}

proof fn lemma_spread_len(
    grid: Seq<TplStats>,
    g: PicGeo,
    m: int,
    st: TplStats,
    carried: int,
    mi_row: int,
    mi_col: int,
    n: int,
)
    requires
        geo_ok(g, m, grid.len() as int),
    ensures
        spread(grid, g, m, st, carried, mi_row, mi_col, n).len() == grid.len(),
    decreases n,
{
    if n > 0 {
        lemma_spread_len(grid, g, m, st, carried, mi_row, mi_col, n - 1);
        let row = quad_row(st, mi_row, m, n - 1);
        let col = quad_col(st, mi_col, m, n - 1);
        if cell_in_picture(g, row, col, m) {
            assert(0 <= cell_index(g, m, row, col) < grid.len());
        }
    }
}

/// Side of the blocks a frame is swept in.
pub open spec fn sweep_block(synth_blk_size: u8) -> BlockSize {
    if synth_blk_size == 32 {
        BlockSize::Block32x32
    } else {
        BlockSize::Block16x16
    }
}

/// The grids of a window after the first `c` blocks of a row of blocks.
pub open spec fn row_walk(
    g0: Seq<Seq<TplStats>>,
    gs: Seq<PicGeo>,
    m: int,
    frame: int,
    mi_row: int,
    bsize: BlockSize,
    carry: Carry,
    n: int,
    c: int,
) -> Seq<Seq<TplStats>>
    decreases c,
{
    if c <= 0 {
        g0
    } else {
        block_walk(
            row_walk(g0, gs, m, frame, mi_row, bsize, carry, n, c - 1),
            gs,
            m,
            frame,
            mi_row,
            (c - 1) * (bsize.wide_spec() / 4),
            bsize,
            carry,
            n,
        )
    }
}

/// The first `c` blocks of a row are passed on without overflow.
pub open spec fn row_fits(
    g0: Seq<Seq<TplStats>>,
    gs: Seq<PicGeo>,
    m: int,
    frame: int,
    mi_row: int,
    bsize: BlockSize,
    carry: Carry,
    n: int,
    c: int,
) -> bool
    decreases c,
{
    c > 0 ==> {
        &&& row_fits(g0, gs, m, frame, mi_row, bsize, carry, n, c - 1)
        &&& block_fits(
            row_walk(g0, gs, m, frame, mi_row, bsize, carry, n, c - 1),
            gs,
            m,
            frame,
            mi_row,
            (c - 1) * (bsize.wide_spec() / 4),
            bsize,
            carry,
            n,
        )
    }
}

/// `cost` has returned the rates of the first `c` blocks of a row.
pub open spec fn row_priced<F: Fn(i64, i64, i64, i64) -> i64>(
    g0: Seq<Seq<TplStats>>,
    gs: Seq<PicGeo>,
    m: int,
    frame: int,
    mi_row: int,
    bsize: BlockSize,
    cost: F,
    n: int,
    c: int,
) -> bool
    decreases c,
{
    c > 0 ==> {
        &&& row_priced(g0, gs, m, frame, mi_row, bsize, cost, n, c - 1)
        &&& block_priced(
            row_walk(g0, gs, m, frame, mi_row, bsize, carried_by(cost, true, m), n, c - 1),
            gs,
            m,
            frame,
            mi_row,
            (c - 1) * (bsize.wide_spec() / 4),
            bsize,
            cost,
            n,
        )
    }
}

/// Blocks per row of a frame.
pub open spec fn blocks_across(cols: int, bsize: BlockSize) -> int {
    (cols + bsize.wide_spec() / 4 - 1) / (bsize.wide_spec() / 4)
}

/// Rows of blocks of a frame.
pub open spec fn blocks_down(rows: int, bsize: BlockSize) -> int {
    (rows + bsize.high_spec() / 4 - 1) / (bsize.high_spec() / 4)
}

/// The grids of a window after the first `r` rows of blocks of a frame.
pub open spec fn frame_walk(
    g0: Seq<Seq<TplStats>>,
    gs: Seq<PicGeo>,
    m: int,
    frame: int,
    bsize: BlockSize,
    carry: Carry,
    n: int,
    r: int,
) -> Seq<Seq<TplStats>>
    decreases r,
{
    if r <= 0 {
        g0
    } else {
        row_walk(
            frame_walk(g0, gs, m, frame, bsize, carry, n, r - 1),
            gs,
            m,
            frame,
            (r - 1) * (bsize.high_spec() / 4),
            bsize,
            carry,
            n,
            blocks_across(gs[frame].cols, bsize),
        )
    }
}

/// The first `r` rows of blocks of a frame are passed on without overflow.
pub open spec fn frame_fits(
    g0: Seq<Seq<TplStats>>,
    gs: Seq<PicGeo>,
    m: int,
    frame: int,
    bsize: BlockSize,
    carry: Carry,
    n: int,
    r: int,
) -> bool
    decreases r,
{
    r > 0 ==> {
        &&& frame_fits(g0, gs, m, frame, bsize, carry, n, r - 1)
        &&& row_fits(
            frame_walk(g0, gs, m, frame, bsize, carry, n, r - 1),
            gs,
            m,
            frame,
            (r - 1) * (bsize.high_spec() / 4),
            bsize,
            carry,
            n,
            blocks_across(gs[frame].cols, bsize),
        )
    }
}

/// `cost` has returned the rates of the first `r` rows of blocks of a frame.
pub open spec fn frame_priced<F: Fn(i64, i64, i64, i64) -> i64>(
    g0: Seq<Seq<TplStats>>,
    gs: Seq<PicGeo>,
    m: int,
    frame: int,
    bsize: BlockSize,
    cost: F,
    n: int,
    r: int,
) -> bool
    decreases r,
{
    r > 0 ==> {
        &&& frame_priced(g0, gs, m, frame, bsize, cost, n, r - 1)
        &&& row_priced(
            frame_walk(g0, gs, m, frame, bsize, carried_by(cost, true, m), n, r - 1),
            gs,
            m,
            frame,
            (r - 1) * (bsize.high_spec() / 4),
            bsize,
            cost,
            n,
            blocks_across(gs[frame].cols, bsize),
        )
    }
}

proof fn lemma_row_prefix(
    g0: Seq<Seq<TplStats>>,
    gs: Seq<PicGeo>,
    m: int,
    frame: int,
    mi_row: int,
    bsize: BlockSize,
    carry: Carry,
    n: int,
    c: int,
    d: int,
)
    requires
        0 <= c <= d,
        row_fits(g0, gs, m, frame, mi_row, bsize, carry, n, d),
    ensures
        row_fits(g0, gs, m, frame, mi_row, bsize, carry, n, c),
    decreases d,
{
    if c < d {
        lemma_row_prefix(g0, gs, m, frame, mi_row, bsize, carry, n, c, d - 1);
    }
}

proof fn lemma_frame_prefix(
    g0: Seq<Seq<TplStats>>,
    gs: Seq<PicGeo>,
    m: int,
    frame: int,
    bsize: BlockSize,
    carry: Carry,
    n: int,
    r: int,
    q: int,
)
    requires
        0 <= r <= q,
        frame_fits(g0, gs, m, frame, bsize, carry, n, q),
    ensures
        frame_fits(g0, gs, m, frame, bsize, carry, n, r),
    decreases q,
{
    if r < q {
        lemma_frame_prefix(g0, gs, m, frame, bsize, carry, n, r, q - 1);
    }
}

fn sweep_row<F: Fn(i64, i64, i64, i64) -> i64>(
    pics: &mut Vec<TplSynthPic>,
    frame_idx: usize,
    mi_row: i32,
    frames_in_sw: usize,
    synth_blk_size: u8,
    compute_rate: bool,
    cost: &F,
    Ghost(r): Ghost<int>,
)
    requires
        compute_rate ==> is_function(*cost),
        frame_idx < old(pics)@.len(),
        frames_in_sw <= old(pics)@.len(),
        window_ok(grids(old(pics)@), geos(old(pics)@), mi_side(synth_blk_size)),
        0 <= mi_row < old(pics)@[frame_idx as int].mi_rows,
        0 <= r < blocks_down(old(pics)@[frame_idx as int].mi_rows as int, sweep_block(synth_blk_size)),
        mi_row == r * (sweep_block(synth_blk_size).high_spec() / 4),
        holds_blocks(
            old(pics)@[frame_idx as int].geo(),
            mi_side(synth_blk_size),
            sweep_block(synth_blk_size),
            old(pics)@[frame_idx as int].stats@.len() as int,
        ),
        row_fits(
            grids(old(pics)@),
            geos(old(pics)@),
            mi_side(synth_blk_size),
            frame_idx as int,
            mi_row as int,
            sweep_block(synth_blk_size),
            carried_by(*cost, compute_rate, mi_side(synth_blk_size)),
            frames_in_sw as int,
            blocks_across(old(pics)@[frame_idx as int].mi_cols as int, sweep_block(synth_blk_size)),
        ),
    ensures
        final(pics)@.len() == old(pics)@.len(),
        geos(final(pics)@) == geos(old(pics)@),
        window_ok(grids(final(pics)@), geos(final(pics)@), mi_side(synth_blk_size)),
        same_sizes(grids(final(pics)@), grids(old(pics)@)),
        grids(final(pics)@) == row_walk(
            grids(old(pics)@),
            geos(old(pics)@),
            mi_side(synth_blk_size),
            frame_idx as int,
            mi_row as int,
            sweep_block(synth_blk_size),
            carried_by(*cost, compute_rate, mi_side(synth_blk_size)),
            frames_in_sw as int,
            blocks_across(old(pics)@[frame_idx as int].mi_cols as int, sweep_block(synth_blk_size)),
        ),
        compute_rate ==> row_priced(
            grids(old(pics)@),
            geos(old(pics)@),
            mi_side(synth_blk_size),
            frame_idx as int,
            mi_row as int,
            sweep_block(synth_blk_size),
            *cost,
            frames_in_sw as int,
            blocks_across(old(pics)@[frame_idx as int].mi_cols as int, sweep_block(synth_blk_size)),
        ),
{
    let ghost m = mi_side(synth_blk_size);
    let ghost gs = geos(pics@);
    let ghost g0 = grids(pics@);
    let ghost carry = carried_by(*cost, compute_rate, m);
    let bsize: BlockSize = if synth_blk_size == 32 {
        BlockSize::Block32x32
    } else {
        BlockSize::Block16x16
    };
    let side: i32 = if synth_blk_size == 32 {
        8
    } else {
        4
    };
    let mi_cols: i32 = pics[frame_idx].mi_cols;
    proof {
        assert(gs[frame_idx as int].cols == mi_cols);
        assert(geo_ok(gs[frame_idx as int], m, g0[frame_idx as int].len() as int));
    }
    let ghost count = blocks_across(mi_cols as int, bsize);
    let ghost mut c: int = 0;
    let mut mi_col: i32 = 0;
    while mi_col < mi_cols
        invariant
            compute_rate ==> is_function(*cost),
            frame_idx < pics@.len(),
            frames_in_sw <= pics@.len(),
            pics@.len() == gs.len(),
            geos(pics@) == gs,
            m == mi_side(synth_blk_size),
            window_ok(grids(pics@), gs, m),
            same_sizes(grids(pics@), g0),
            holds_blocks(gs[frame_idx as int], m, bsize, g0[frame_idx as int].len() as int),
            0 <= mi_row < gs[frame_idx as int].rows <= MI_LIMIT,
            0 <= r < blocks_down(gs[frame_idx as int].rows, bsize),
            mi_row == r * (bsize.high_spec() / 4),
            gs[frame_idx as int].cols == mi_cols,
            0 <= mi_cols <= MI_LIMIT,
            bsize == sweep_block(synth_blk_size),
            side == bsize.wide_spec() / 4,
            side == 4 || side == 8,
            count == blocks_across(mi_cols as int, bsize),
            carry == carried_by(*cost, compute_rate, m),
            0 <= c,
            mi_col == c * side,
            mi_col < mi_cols + side,
            row_fits(g0, gs, m, frame_idx as int, mi_row as int, bsize, carry, frames_in_sw as int, count),
            grids(pics@) == row_walk(
                g0,
                gs,
                m,
                frame_idx as int,
                mi_row as int,
                bsize,
                carry,
                frames_in_sw as int,
                c,
            ),
            compute_rate ==> row_priced(
                g0,
                gs,
                m,
                frame_idx as int,
                mi_row as int,
                bsize,
                *cost,
                frames_in_sw as int,
                c,
            ),
        decreases mi_cols + side - mi_col,
    {
        proof {
            lemma_block_count(mi_cols as int, side as int, c);
            lemma_row_prefix(
                g0,
                gs,
                m,
                frame_idx as int,
                mi_row as int,
                bsize,
                carry,
                frames_in_sw as int,
                c + 1,
                count,
            );
            assert(gs[frame_idx as int] == pics@[frame_idx as int].geo());
            assert(grids(pics@)[frame_idx as int] == pics@[frame_idx as int].stats@);
            assert(holds_block(gs[frame_idx as int], m, r, c, bsize, g0[frame_idx as int].len() as int));
        }
        tpl_model_update(
            pics,
            frame_idx,
            mi_row,
            mi_col,
            bsize,
            frames_in_sw,
            synth_blk_size,
            compute_rate,
            cost,
        );
        mi_col = mi_col + side;
        proof {
            vstd::arithmetic::mul::lemma_mul_is_distributive_add_other_way(side as int, c, 1);
            c = c + 1;
        }
    }
    proof {
        lemma_block_count(mi_cols as int, side as int, c);
    }
}

proof fn lemma_block_count(cols: int, side: int, c: int)
    requires
        0 <= cols,
        side == 4 || side == 8,
        0 <= c,
        c * side < cols + side,
    ensures
        c * side < cols ==> c < (cols + side - 1) / side,
        c * side >= cols ==> c == (cols + side - 1) / side,
{
    if side == 4 {
    } else {
    }
}

/// Passes on what every block of a frame owes to its reference.
pub fn tpl_mc_flow_synthesizer<F: Fn(i64, i64, i64, i64) -> i64>(
    pics: &mut Vec<TplSynthPic>,
    frame_idx: usize,
    frames_in_sw: usize,
    synth_blk_size: u8,
    compute_rate: bool,
    cost: &F,
)
    requires
        compute_rate ==> is_function(*cost),
        frame_idx < old(pics)@.len(),
        frames_in_sw <= old(pics)@.len(),
        window_ok(grids(old(pics)@), geos(old(pics)@), mi_side(synth_blk_size)),
        holds_blocks(
            old(pics)@[frame_idx as int].geo(),
            mi_side(synth_blk_size),
            sweep_block(synth_blk_size),
            old(pics)@[frame_idx as int].stats@.len() as int,
        ),
        frame_fits(
            grids(old(pics)@),
            geos(old(pics)@),
            mi_side(synth_blk_size),
            frame_idx as int,
            sweep_block(synth_blk_size),
            carried_by(*cost, compute_rate, mi_side(synth_blk_size)),
            frames_in_sw as int,
            blocks_down(old(pics)@[frame_idx as int].mi_rows as int, sweep_block(synth_blk_size)),
        ),
    ensures
        final(pics)@.len() == old(pics)@.len(),
        geos(final(pics)@) == geos(old(pics)@),
        window_ok(grids(final(pics)@), geos(final(pics)@), mi_side(synth_blk_size)),
        same_sizes(grids(final(pics)@), grids(old(pics)@)),
        grids(final(pics)@) == frame_walk(
            grids(old(pics)@),
            geos(old(pics)@),
            mi_side(synth_blk_size),
            frame_idx as int,
            sweep_block(synth_blk_size),
            carried_by(*cost, compute_rate, mi_side(synth_blk_size)),
            frames_in_sw as int,
            blocks_down(old(pics)@[frame_idx as int].mi_rows as int, sweep_block(synth_blk_size)),
        ),
        compute_rate ==> frame_priced(
            grids(old(pics)@),
            geos(old(pics)@),
            mi_side(synth_blk_size),
            frame_idx as int,
            sweep_block(synth_blk_size),
            *cost,
            frames_in_sw as int,
            blocks_down(old(pics)@[frame_idx as int].mi_rows as int, sweep_block(synth_blk_size)),
        ),
{
    let ghost m = mi_side(synth_blk_size);
    let ghost gs = geos(pics@);
    let ghost g0 = grids(pics@);
    let ghost carry = carried_by(*cost, compute_rate, m);
    let ghost bsize = sweep_block(synth_blk_size);
    let side: i32 = if synth_blk_size == 32 {
        8
    } else {
        4
    };
    let mi_rows: i32 = pics[frame_idx].mi_rows;
    proof {
        assert(gs[frame_idx as int].rows == mi_rows);
        assert(geo_ok(gs[frame_idx as int], m, g0[frame_idx as int].len() as int));
    }
    let ghost count = blocks_down(mi_rows as int, bsize);
    let ghost mut r: int = 0;
    let mut mi_row: i32 = 0;
    while mi_row < mi_rows
        invariant
            compute_rate ==> is_function(*cost),
            frame_idx < pics@.len(),
            frames_in_sw <= pics@.len(),
            pics@.len() == gs.len(),
            geos(pics@) == gs,
            m == mi_side(synth_blk_size),
            window_ok(grids(pics@), gs, m),
            same_sizes(grids(pics@), g0),
            holds_blocks(gs[frame_idx as int], m, bsize, g0[frame_idx as int].len() as int),
            gs[frame_idx as int].rows == mi_rows,
            0 <= mi_rows <= MI_LIMIT,
            bsize == sweep_block(synth_blk_size),
            side == bsize.high_spec() / 4,
            side == 4 || side == 8,
            count == blocks_down(mi_rows as int, bsize),
            carry == carried_by(*cost, compute_rate, m),
            0 <= r,
            mi_row == r * side,
            mi_row < mi_rows + side,
            frame_fits(g0, gs, m, frame_idx as int, bsize, carry, frames_in_sw as int, count),
            grids(pics@) == frame_walk(g0, gs, m, frame_idx as int, bsize, carry, frames_in_sw as int, r),
            compute_rate ==> frame_priced(g0, gs, m, frame_idx as int, bsize, *cost, frames_in_sw as int, r),
        decreases mi_rows + side - mi_row,
    {
        proof {
            lemma_block_count(mi_rows as int, side as int, r);
            lemma_frame_prefix(g0, gs, m, frame_idx as int, bsize, carry, frames_in_sw as int, r + 1, count);
            assert(gs[frame_idx as int] == pics@[frame_idx as int].geo());
            assert(grids(pics@)[frame_idx as int] == pics@[frame_idx as int].stats@);
        }
        sweep_row(pics, frame_idx, mi_row, frames_in_sw, synth_blk_size, compute_rate, cost, Ghost(r));
        mi_row = mi_row + side;
        proof {
            vstd::arithmetic::mul::lemma_mul_is_distributive_add_other_way(side as int, r, 1);
            r = r + 1;
        }
    }
    proof {
        lemma_block_count(mi_rows as int, side as int, r);
    }
}

/// The grids of a window after its valid frames from `k` on, the last first.
pub open spec fn window_walk(
    g0: Seq<Seq<TplStats>>,
    gs: Seq<PicGeo>,
    m: int,
    valid: Seq<bool>,
    bsize: BlockSize,
    carry: Carry,
    n: int,
    k: int,
) -> Seq<Seq<TplStats>>
    decreases n - k,
{
    if k >= n {
        g0
    } else {
        let later = window_walk(g0, gs, m, valid, bsize, carry, n, k + 1);
        if valid[k] {
            frame_walk(later, gs, m, k, bsize, carry, n, blocks_down(gs[k].rows, bsize))
        } else {
            later
        }
    }
}

/// The valid frames from `k` on are passed on without overflow.
pub open spec fn window_fits(
    g0: Seq<Seq<TplStats>>,
    gs: Seq<PicGeo>,
    m: int,
    valid: Seq<bool>,
    bsize: BlockSize,
    carry: Carry,
    n: int,
    k: int,
) -> bool
    decreases n - k,
{
    k < n ==> {
        &&& window_fits(g0, gs, m, valid, bsize, carry, n, k + 1)
        &&& valid[k] ==> frame_fits(
            window_walk(g0, gs, m, valid, bsize, carry, n, k + 1),
            gs,
            m,
            k,
            bsize,
            carry,
            n,
            blocks_down(gs[k].rows, bsize),
        )
    }
}

/// `cost` has returned the rates of the valid frames from `k` on.
pub open spec fn window_priced<F: Fn(i64, i64, i64, i64) -> i64>(
    g0: Seq<Seq<TplStats>>,
    gs: Seq<PicGeo>,
    m: int,
    valid: Seq<bool>,
    bsize: BlockSize,
    cost: F,
    n: int,
    k: int,
) -> bool
    decreases n - k,
{
    k < n ==> {
        &&& window_priced(g0, gs, m, valid, bsize, cost, n, k + 1)
        &&& valid[k] ==> frame_priced(
            window_walk(g0, gs, m, valid, bsize, carried_by(cost, true, m), n, k + 1),
            gs,
            m,
            k,
            bsize,
            cost,
            n,
            blocks_down(gs[k].rows, bsize),
        )
    }
}

proof fn lemma_window_suffix(
    g0: Seq<Seq<TplStats>>,
    gs: Seq<PicGeo>,
    m: int,
    valid: Seq<bool>,
    bsize: BlockSize,
    carry: Carry,
    n: int,
    j: int,
    k: int,
)
    requires
        j <= k,
        window_fits(g0, gs, m, valid, bsize, carry, n, j),
    ensures
        window_fits(g0, gs, m, valid, bsize, carry, n, k),
    decreases k - j,
{
    if j < k {
        if j < n {
            lemma_window_suffix(g0, gs, m, valid, bsize, carry, n, j + 1, k);
        }
    }
}

/// Passes on what the valid frames of a window owe to each other, the last
/// frame first.
pub fn tpl_mc_flow_synthesis<F: Fn(i64, i64, i64, i64) -> i64>(
    pics: &mut Vec<TplSynthPic>,
    valid: &Vec<bool>,
    synth_blk_size: u8,
    compute_rate: bool,
    cost: &F,
)
    requires
        compute_rate ==> is_function(*cost),
        valid@.len() == old(pics)@.len(),
        window_ok(grids(old(pics)@), geos(old(pics)@), mi_side(synth_blk_size)),
        forall|i: int|
            0 <= i < valid@.len() && #[trigger] valid@[i] ==> holds_blocks(
                old(pics)@[i].geo(),
                mi_side(synth_blk_size),
                sweep_block(synth_blk_size),
                old(pics)@[i].stats@.len() as int,
            ),
        window_fits(
            grids(old(pics)@),
            geos(old(pics)@),
            mi_side(synth_blk_size),
            valid@,
            sweep_block(synth_blk_size),
            carried_by(*cost, compute_rate, mi_side(synth_blk_size)),
            old(pics)@.len() as int,
            0,
        ),
    ensures
        geos(final(pics)@) == geos(old(pics)@),
        grids(final(pics)@) == window_walk(
            grids(old(pics)@),
            geos(old(pics)@),
            mi_side(synth_blk_size),
            valid@,
            sweep_block(synth_blk_size),
            carried_by(*cost, compute_rate, mi_side(synth_blk_size)),
            old(pics)@.len() as int,
            0,
        ),
        compute_rate ==> window_priced(
            grids(old(pics)@),
            geos(old(pics)@),
            mi_side(synth_blk_size),
            valid@,
            sweep_block(synth_blk_size),
            *cost,
            old(pics)@.len() as int,
            0,
        ),
{
    let ghost m = mi_side(synth_blk_size);
    let ghost gs = geos(pics@);
    let ghost g0 = grids(pics@);
    let ghost carry = carried_by(*cost, compute_rate, m);
    let ghost bsize = sweep_block(synth_blk_size);
    let n: usize = pics.len();
    let mut k: usize = n;
    while k > 0
        invariant
            k <= n,
            n == pics@.len(),
            n == gs.len(),
            n == valid@.len(),
            compute_rate ==> is_function(*cost),
            geos(pics@) == gs,
            m == mi_side(synth_blk_size),
            window_ok(grids(pics@), gs, m),
            same_sizes(grids(pics@), g0),
            forall|i: int|
                0 <= i < valid@.len() && #[trigger] valid@[i] ==> holds_blocks(gs[i], m, bsize, g0[i].len() as int),
            bsize == sweep_block(synth_blk_size),
            carry == carried_by(*cost, compute_rate, m),
            window_fits(g0, gs, m, valid@, bsize, carry, n as int, 0),
            grids(pics@) == window_walk(g0, gs, m, valid@, bsize, carry, n as int, k as int),
            compute_rate ==> window_priced(g0, gs, m, valid@, bsize, *cost, n as int, k as int),
        decreases k,
    {
        let ghost later = k as int;
        k = k - 1;
        proof {
            lemma_window_suffix(g0, gs, m, valid@, bsize, carry, n as int, 0, k as int);
            assert(gs[k as int] == pics@[k as int].geo());
            assert(grids(pics@)[k as int] == pics@[k as int].stats@);
        }
        if valid[k] {
            tpl_mc_flow_synthesizer(pics, k, n, synth_blk_size, compute_rate, cost);
        }
    }
}

/// The window never holds more frames than its limit.
pub fn tpl_frames_in_window(available: usize) -> (r: usize)
    ensures
        r == min_int(available as int, 512),
{
    if available < MAX_TPL_LA_SW {
        available
    } else {
        MAX_TPL_LA_SW
    }
}

/// Forgets the statistics of a frame before it is searched again.
pub fn tpl_clear_stats(stats: &mut Vec<TplStats>)
    ensures
        final(stats)@.len() == old(stats)@.len(),
        forall|i: int| 0 <= i < final(stats)@.len() ==> #[trigger] final(stats)@[i] == empty_stats(),
{
    let ghost len = stats@.len();
    let mut i: usize = 0;
    while i < stats.len()
        invariant
            i <= stats@.len(),
            stats@.len() == len,
            forall|k: int| 0 <= k < i ==> #[trigger] stats@[k] == empty_stats(),
        decreases stats@.len() - i,
    {
        let blank: TplStats = TplStats::default();
        stats[i] = blank;
        i = i + 1;
    }
}

/// Sums of the statistics over an area of a frame.
#[derive(Debug, Clone, Copy, PartialEq, Eq, Structural)]
pub struct AreaSums {
    pub recrf_dist: i64,
    /// Cost of what others owe to the area.
    pub mc_dep_delta: i64,
    pub count: i64,
    /// Largest of these costs, not below zero.
    pub max_delta: i64,
}

/// The positions of an area that are visited, in units of four samples.
#[derive(Debug, Clone, Copy)]
pub struct Area {
    pub row0: i32,
    pub row1: i32,
    pub row_step: i32,
    pub col0: i32,
    pub col1: i32,
    pub col_step: i32,
    /// Positions at or beyond these are left out.
    pub row_limit: i32,
    pub col_limit: i32,
}

/// Steps from `lo` to below `hi`.
pub open spec fn steps(lo: int, hi: int, step: int) -> int {
    if hi <= lo {
        0
    } else {
        (hi - lo + step - 1) / step
    }
}

impl Area {
    pub open spec fn wf(self) -> bool {
        &&& 0 <= self.row0 <= 4 * MI_LIMIT
        &&& 0 <= self.row1 <= 4 * MI_LIMIT
        &&& 1 <= self.row_step <= 16
        &&& 0 <= self.col0 <= 4 * MI_LIMIT
        &&& 0 <= self.col1 <= 4 * MI_LIMIT
        &&& 1 <= self.col_step <= 16
    }

    pub open spec fn rows(self) -> int {
        steps(self.row0 as int, self.row1 as int, self.row_step as int)
    }

    pub open spec fn cols(self) -> int {
        steps(self.col0 as int, self.col1 as int, self.col_step as int)
    }

    pub open spec fn row(self, k: int) -> int {
        self.row0 + (k / self.cols()) * self.row_step
    }

    pub open spec fn col(self, k: int) -> int {
        self.col0 + (k % self.cols()) * self.col_step
    }

    /// Position `k` is counted.
    pub open spec fn counted(self, k: int) -> bool {
        self.row(k) < self.row_limit && self.col(k) < self.col_limit
    }

    /// Cell of position `k` in a grid of `stride` cells of side `m` per row.
    pub open spec fn cell(self, stride: int, m: int, k: int) -> int {
        (self.row(k) / m) * stride + self.col(k) / m
    }
}

/// Cost of what others owe to a cell.
pub open spec fn delta_of(st: TplStats, rdmult: int) -> int {
    rd(rdmult, st.mc_dep_rate as int, st.mc_dep_dist as int)
}

/// Distortion at the positions of an area.
pub open spec fn dist_terms(stats: Seq<TplStats>, a: Area, stride: int, m: int) -> spec_fn(int) -> int {
    |k: int|
        if a.counted(k) {
            stats[a.cell(stride, m, k)].recrf_dist as int
        } else {
            0
        }
}

/// Dependency cost at the positions of an area.
pub open spec fn delta_terms(stats: Seq<TplStats>, a: Area, stride: int, m: int, rdmult: int) -> spec_fn(int) -> int {
    |k: int|
        if a.counted(k) {
            delta_of(stats[a.cell(stride, m, k)], rdmult)
        } else {
            0
        }
}

/// One for each counted position.
pub open spec fn count_terms(a: Area) -> spec_fn(int) -> int {
    |k: int|
        if a.counted(k) {
            1
        } else {
            0
        }
}

/// The largest of the first `n` terms, not below zero.
pub open spec fn peak(f: spec_fn(int) -> int, n: int) -> int
    decreases n,
{
    if n <= 0 {
        0
    } else {
        max_int(peak(f, n - 1), f(n - 1))
    }
}

/// The sums of an area can be formed without overflow, and every counted
/// position has a cell.
pub open spec fn sums_fit(stats: Seq<TplStats>, a: Area, stride: int, m: int, rdmult: int) -> bool {
    let n = a.rows() * a.cols();
    &&& forall|k: int|
        0 <= k < n && a.counted(k) ==> 0 <= #[trigger] a.cell(stride, m, k) < stats.len() && cost_fits(
            stats[a.cell(stride, m, k)],
            rdmult,
        )
    &&& forall|k: int|
        0 <= k <= n ==> fits(#[trigger] crate::arith::total(dist_terms(stats, a, stride, m), k))
    &&& forall|k: int|
        0 <= k <= n ==> fits(#[trigger] crate::arith::total(delta_terms(stats, a, stride, m, rdmult), k))
}

/// The dependency cost of a cell is computed without overflow.
pub open spec fn cost_fits(st: TplStats, rdmult: int) -> bool {
    &&& fits(st.mc_dep_rate * rdmult)
    &&& fits(st.mc_dep_rate * rdmult + 256)
    &&& fits(st.mc_dep_dist * 128)
    &&& fits(delta_of(st, rdmult))
}

/// The sums over an area.
pub open spec fn are_sums(r: AreaSums, stats: Seq<TplStats>, a: Area, stride: int, m: int, rdmult: int) -> bool {
    let n = a.rows() * a.cols();
    &&& r.recrf_dist == crate::arith::total(dist_terms(stats, a, stride, m), n)
    &&& r.mc_dep_delta == crate::arith::total(delta_terms(stats, a, stride, m, rdmult), n)
    &&& r.count == crate::arith::total(count_terms(a), n)
    &&& r.max_delta == peak(delta_terms(stats, a, stride, m, rdmult), n)
}

fn step_count(lo: i32, hi: i32, step: i32) -> (r: i32)
    requires
        0 <= lo <= 4 * MI_LIMIT,
        0 <= hi <= 4 * MI_LIMIT,
        1 <= step <= 16,
    ensures
        r == steps(lo as int, hi as int, step as int),
        0 <= r <= 4 * MI_LIMIT,
        r > 0 ==> (r - 1) * step < hi - lo,
{
    if hi <= lo {
        return 0;
    }
    let d: i32 = hi - lo + step - 1;
    proof {
        lemma_fundamental_div_mod(d as int, step as int);
        lemma_div_pos_is_pos(d as int, step as int);
        let q = d as int / step as int;
        lemma_mul_is_commutative(q, step as int);
        assert((q - 1) * step == q * step - step) by (nonlinear_arith);
        if q > hi - lo {
            lemma_mul_inequality(hi - lo + 1, q, step as int);
            assert((hi - lo + 1) * step >= (hi - lo) + step) by (nonlinear_arith)
                requires
                    hi - lo >= 1,
                    step >= 1,
            ;
        }
    }
    d / step
}

/// Sums the statistics over an area.
fn area_sums(stats: &Vec<TplStats>, a: Area, stride: usize, m: i32, rdmult: i64) -> (r: AreaSums)
    requires
        a.wf(),
        1 <= m,
        sums_fit(stats@, a, stride as int, m as int, rdmult as int),
    ensures
        are_sums(r, stats@, a, stride as int, m as int, rdmult as int),
{
    let rows: i32 = step_count(a.row0, a.row1, a.row_step);
    let cols: i32 = step_count(a.col0, a.col1, a.col_step);
    let ghost n = a.rows() * a.cols();
    let ghost f = dist_terms(stats@, a, stride as int, m as int);
    let ghost g = delta_terms(stats@, a, stride as int, m as int, rdmult as int);
    let ghost h = count_terms(a);
    let len: usize = stats.len();
    let mut sums: AreaSums = AreaSums { recrf_dist: 0, mc_dep_delta: 0, count: 0, max_delta: 0 };
    let mut r: i32 = 0;
    proof {
        assert(0 * cols == 0);
    }
    while r < rows
        invariant
            0 <= r <= rows <= 4 * MI_LIMIT,
            0 <= cols <= 4 * MI_LIMIT,
            rows == a.rows(),
            cols == a.cols(),
            rows > 0 ==> (rows - 1) * a.row_step < a.row1 - a.row0,
            cols > 0 ==> (cols - 1) * a.col_step < a.col1 - a.col0,
            n == rows * cols,
            a.wf(),
            1 <= m,
            len == stats@.len(),
            sums_fit(stats@, a, stride as int, m as int, rdmult as int),
            f == dist_terms(stats@, a, stride as int, m as int),
            g == delta_terms(stats@, a, stride as int, m as int, rdmult as int),
            h == count_terms(a),
            sums.recrf_dist == crate::arith::total(f, r * cols),
            sums.mc_dep_delta == crate::arith::total(g, r * cols),
            sums.count == crate::arith::total(h, r * cols),
            sums.max_delta == peak(g, r * cols),
            0 <= sums.count <= r * cols,
        decreases rows - r,
    {
        let mut c: i32 = 0;
        while c < cols
            invariant
                0 <= r < rows <= 4 * MI_LIMIT,
                0 <= c <= cols <= 4 * MI_LIMIT,
                rows == a.rows(),
                cols == a.cols(),
                (rows - 1) * a.row_step < a.row1 - a.row0,
                cols > 0 ==> (cols - 1) * a.col_step < a.col1 - a.col0,
                n == rows * cols,
                a.wf(),
                1 <= m,
                len == stats@.len(),
                sums_fit(stats@, a, stride as int, m as int, rdmult as int),
                f == dist_terms(stats@, a, stride as int, m as int),
                g == delta_terms(stats@, a, stride as int, m as int, rdmult as int),
                h == count_terms(a),
                sums.recrf_dist == crate::arith::total(f, r * cols + c),
                sums.mc_dep_delta == crate::arith::total(g, r * cols + c),
                sums.count == crate::arith::total(h, r * cols + c),
                sums.max_delta == peak(g, r * cols + c),
                0 <= sums.count <= r * cols + c,
            decreases cols - c,
        {
            let ghost k = r * cols + c;
            proof {
                crate::arith::lemma_raster_index(r as int, c as int, cols as int);
                crate::arith::lemma_raster_bounds(r as int, c as int, cols as int, rows as int);
                lemma_mul_is_commutative(rows as int, cols as int);
                lemma_mul_inequality(r as int, rows - 1, a.row_step as int);
                lemma_mul_inequality(c as int, cols - 1, a.col_step as int);
                lemma_mul_nonnegative(r as int, a.row_step as int);
                lemma_mul_nonnegative(c as int, a.col_step as int);
                assert(fits(crate::arith::total(f, k + 1)));
                assert(fits(crate::arith::total(g, k + 1)));
                vstd::arithmetic::mul::lemma_mul_upper_bound(rows as int, 0x40_0000, cols as int, 0x40_0000);
            }
            let row: i32 = a.row0 + r * a.row_step;
            let col: i32 = a.col0 + c * a.col_step;
            assert(row == a.row(k) && col == a.col(k));
            if row < a.row_limit && col < a.col_limit {
                let cell_row: i32 = row / m;
                let cell_col: i32 = col / m;
                proof {
                    lemma_div_pos_is_pos(row as int, m as int);
                    lemma_div_pos_is_pos(col as int, m as int);
                    assert(0 <= a.cell(stride as int, m as int, k) < len);
                    lemma_mul_nonnegative(cell_row as int, stride as int);
                }
                let at: usize = cell_row as usize * stride + cell_col as usize;
                let st: TplStats = stats[at];
                let delta: i64 = rdcost_tpl(rdmult, st.mc_dep_rate, st.mc_dep_dist);
                assert(f(k) == st.recrf_dist && g(k) == delta && h(k) == 1);
                sums = AreaSums {
                    recrf_dist: sums.recrf_dist + st.recrf_dist,
                    mc_dep_delta: sums.mc_dep_delta + delta,
                    count: sums.count + 1,
                    max_delta: if delta > sums.max_delta {
                        delta
                    } else {
                        sums.max_delta
                    },
                };
            } else {
                assert(f(k) == 0 && g(k) == 0 && h(k) == 0);
                assert(peak(g, k + 1) == peak(g, k)) by {
                    lemma_peak_nonnegative(g, k);
                }
            }
            c = c + 1;
        }
        proof {
            vstd::arithmetic::mul::lemma_mul_is_distributive_add_other_way(cols as int, r as int, 1);
        }
        r = r + 1;
    }
    sums
}

proof fn lemma_peak_nonnegative(f: spec_fn(int) -> int, n: int)
    ensures
        peak(f, n) >= 0,
    decreases n,
{
    if n > 0 {
        lemma_peak_nonnegative(f, n - 1);
    }
}

/// Horizontal position before a frame is scaled down, from the one after.
pub fn coded_to_superres_mi(mi_col: i32, denom: u8) -> (r: i32)
    requires
        0 <= mi_col <= MI_LIMIT,
    ensures
        r == (mi_col * denom + 4) / 8,
        0 <= r,
{
    proof {
        vstd::arithmetic::mul::lemma_mul_upper_bound(mi_col as int, MI_LIMIT as int, denom as int, 255);
        lemma_mul_nonnegative(mi_col as int, denom as int);
    }
    (mi_col * denom as i32 + 4) / 8
}

/// Size of a frame in units of four samples, rounded up to 16 samples.
pub open spec fn mi_of(samples: int) -> int {
    4 * ((samples + 15) / 16)
}

fn mi_units(samples: u32) -> (r: i32)
    requires
        samples <= 4 * MI_LIMIT,
    ensures
        r == mi_of(samples as int),
        0 <= r <= MI_LIMIT + 4,
{
    (4 * ((samples + 15) / 16)) as i32
}

/// Position in steps of superblock columns, as the scaled frame sees it.
pub open spec fn superres_col(mi_col: int, denom: int) -> int {
    (mi_col * denom + 4) / 8
}

/// The whole frame.
pub open spec fn frame_area(synth_blk_size: u8, denom: u8, mi_rows: i32, width: u32) -> Area {
    let m = mi_side(synth_blk_size);
    let cols = mi_of(width as int) as i32;
    Area {
        row0: 0,
        row1: mi_rows,
        row_step: m as i32,
        col0: 0,
        col1: cols,
        col_step: superres_col(m, denom as int) as i32,
        row_limit: mi_rows,
        col_limit: cols,
    }
}

/// Sums over a frame.
pub fn tpl_frame_sums(
    synth_blk_size: u8,
    superres_denom: u8,
    cm_mi_rows: i32,
    enhanced_unscaled_width: u32,
    base_rdmult: i64,
    tpl_stats: &Vec<TplStats>,
) -> (r: AreaSums)
    requires
        8 <= superres_denom <= 16,
        0 <= cm_mi_rows <= MI_LIMIT,
        enhanced_unscaled_width <= 4 * MI_LIMIT,
        sums_fit(
            tpl_stats@,
            frame_area(synth_blk_size, superres_denom, cm_mi_rows, enhanced_unscaled_width),
            mi_of(enhanced_unscaled_width as int) / mi_side(synth_blk_size),
            mi_side(synth_blk_size),
            base_rdmult as int,
        ),
    ensures
        are_sums(
            r,
            tpl_stats@,
            frame_area(synth_blk_size, superres_denom, cm_mi_rows, enhanced_unscaled_width),
            mi_of(enhanced_unscaled_width as int) / mi_side(synth_blk_size),
            mi_side(synth_blk_size),
            base_rdmult as int,
        ),
{
    let m: i32 = cell_mi(synth_blk_size);
    let cols: i32 = mi_units(enhanced_unscaled_width);
    let a: Area = Area {
        row0: 0,
        row1: cm_mi_rows,
        row_step: m,
        col0: 0,
        col1: cols,
        col_step: coded_to_superres_mi(m, superres_denom),
        row_limit: cm_mi_rows,
        col_limit: cols,
    };
    proof {
        vstd::arithmetic::mul::lemma_mul_upper_bound(m as int, 8, superres_denom as int, 16);
        lemma_mul_inequality(2, m as int, superres_denom as int);
    }
    let stride: usize = synth_stride(enhanced_unscaled_width, m);
    area_sums(tpl_stats, a, stride, m, base_rdmult)
}

/// The area of a superblock.
pub open spec fn sb_area(
    synth_blk_size: u8,
    sb_size: u32,
    denom: u8,
    width: u32,
    height: u32,
    org_x: u32,
    org_y: u32,
) -> Area {
    let m = mi_side(synth_blk_size);
    Area {
        row0: (org_y / 4) as i32,
        row1: (org_y / 4 + sb_size / 4) as i32,
        row_step: m as i32,
        col0: superres_col(org_x as int / 4, denom as int) as i32,
        col1: superres_col(org_x as int / 4 + sb_size as int / 4, denom as int) as i32,
        col_step: superres_col(m, denom as int) as i32,
        row_limit: mi_of(height as int) as i32,
        col_limit: mi_of(width as int) as i32,
    }
}

/// Sums over a superblock.
pub fn tpl_sb_sums(
    synth_blk_size: u8,
    sb_size: u32,
    superres_denom: u8,
    enhanced_unscaled_width: u32,
    enhanced_unscaled_height: u32,
    base_rdmult: i64,
    tpl_stats: &Vec<TplStats>,
    org_x: u32,
    org_y: u32,
) -> (r: AreaSums)
    requires
        8 <= superres_denom <= 16,
        sb_size <= 128,
        enhanced_unscaled_width <= 4 * MI_LIMIT,
        enhanced_unscaled_height <= 4 * MI_LIMIT,
        org_x <= 2 * MI_LIMIT,
        org_y <= 2 * MI_LIMIT,
        sums_fit(
            tpl_stats@,
            sb_area(
                synth_blk_size,
                sb_size,
                superres_denom,
                enhanced_unscaled_width,
                enhanced_unscaled_height,
                org_x,
                org_y,
            ),
            mi_of(enhanced_unscaled_width as int) / mi_side(synth_blk_size),
            mi_side(synth_blk_size),
            base_rdmult as int,
        ),
    ensures
        are_sums(
            r,
            tpl_stats@,
            sb_area(
                synth_blk_size,
                sb_size,
                superres_denom,
                enhanced_unscaled_width,
                enhanced_unscaled_height,
                org_x,
                org_y,
            ),
            mi_of(enhanced_unscaled_width as int) / mi_side(synth_blk_size),
            mi_side(synth_blk_size),
            base_rdmult as int,
        ),
{
    let m: i32 = cell_mi(synth_blk_size);
    let mi_row: i32 = (org_y / 4) as i32;
    let mi_col: i32 = (org_x / 4) as i32;
    let side: i32 = (sb_size / 4) as i32;
    let a: Area = Area {
        row0: mi_row,
        row1: mi_row + side,
        row_step: m,
        col0: coded_to_superres_mi(mi_col, superres_denom),
        col1: coded_to_superres_mi(mi_col + side, superres_denom),
        col_step: coded_to_superres_mi(m, superres_denom),
        row_limit: mi_units(enhanced_unscaled_height),
        col_limit: mi_units(enhanced_unscaled_width),
    };
    proof {
        vstd::arithmetic::mul::lemma_mul_upper_bound(m as int, 8, superres_denom as int, 16);
        lemma_mul_inequality(2, m as int, superres_denom as int);
        vstd::arithmetic::mul::lemma_mul_upper_bound(mi_col as int, MI_LIMIT as int, superres_denom as int, 16);
        vstd::arithmetic::mul::lemma_mul_upper_bound(mi_col + side, MI_LIMIT as int, superres_denom as int, 16);
    }
    let stride: usize = synth_stride(enhanced_unscaled_width, m);
    area_sums(tpl_stats, a, stride, m, base_rdmult)
}

/// Side of the blocks that get a multiplier of their own.
pub open spec fn factor_side(synth_blk_size: u8) -> int {
    if synth_blk_size == 32 {
        8
    } else {
        4
    }
}

/// Rows and columns of the grid of multipliers.
pub fn tpl_factor_grid(synth_blk_size: u8, mi_rows: i32, enhanced_unscaled_width: u32) -> (r: (i32, i32))
    requires
        0 <= mi_rows <= MI_LIMIT,
        enhanced_unscaled_width <= 4 * MI_LIMIT,
    ensures
        r.0 == (mi_rows + factor_side(synth_blk_size) - 1) / factor_side(synth_blk_size),
        r.1 == (mi_of(enhanced_unscaled_width as int) + factor_side(synth_blk_size) - 1) / factor_side(
            synth_blk_size,
        ),
{
    let cols: i32 = mi_units(enhanced_unscaled_width);
    if synth_blk_size == 32 {
        ((mi_rows + 7) / 8, (cols + 7) / 8)
    } else {
        ((mi_rows + 3) / 4, (cols + 3) / 4)
    }
}

/// The area of one multiplier.
pub open spec fn factor_area(synth_blk_size: u8, mi_rows: i32, width: u32, row: i32, col: i32) -> Area {
    let m = mi_side(synth_blk_size);
    let side = factor_side(synth_blk_size);
    Area {
        row0: (row * side) as i32,
        row1: (row * side + side) as i32,
        row_step: m as i32,
        col0: (col * side) as i32,
        col1: (col * side + side) as i32,
        col_step: m as i32,
        row_limit: mi_rows,
        col_limit: mi_of(width as int) as i32,
    }
}

/// Sums over the area of one multiplier.
pub fn tpl_factor_sums(
    synth_blk_size: u8,
    mi_rows: i32,
    enhanced_unscaled_width: u32,
    base_rdmult: i64,
    tpl_stats: &Vec<TplStats>,
    row: i32,
    col: i32,
) -> (r: AreaSums)
    requires
        0 <= row <= 0x2_0000,
        0 <= col <= 0x2_0000,
        enhanced_unscaled_width <= 4 * MI_LIMIT,
        sums_fit(
            tpl_stats@,
            factor_area(synth_blk_size, mi_rows, enhanced_unscaled_width, row, col),
            mi_of(enhanced_unscaled_width as int) / mi_side(synth_blk_size),
            mi_side(synth_blk_size),
            base_rdmult as int,
        ),
    ensures
        are_sums(
            r,
            tpl_stats@,
            factor_area(synth_blk_size, mi_rows, enhanced_unscaled_width, row, col),
            mi_of(enhanced_unscaled_width as int) / mi_side(synth_blk_size),
            mi_side(synth_blk_size),
            base_rdmult as int,
        ),
{
    let m: i32 = cell_mi(synth_blk_size);
    let (row0, col0, side): (i32, i32, i32) = if synth_blk_size == 32 {
        (row * 8, col * 8, 8)
    } else {
        (row * 4, col * 4, 4)
    };
    let a: Area = Area {
        row0,
        row1: row0 + side,
        row_step: m,
        col0,
        col1: col0 + side,
        col_step: m,
        row_limit: mi_rows,
        col_limit: mi_units(enhanced_unscaled_width),
    };
    let stride: usize = synth_stride(enhanced_unscaled_width, m);
    area_sums(tpl_stats, a, stride, m, base_rdmult)
}

/// What the frame-level factor is decided by.
#[derive(Debug, Clone, Copy, PartialEq, Eq, Structural)]
pub struct R0Decision {
    /// Numerator and denominator of the factor.
    pub recrf: i64,
    pub mc_dep_cost_base: i64,
    /// The factor exists.
    pub tpl_is_valid: bool,
    /// A single cell dominates, so the factor is one.
    pub single_cell_dominates: bool,
}

/// Decides the frame-level factor: distortion over distortion plus
/// dependency cost, unless one cell holds nearly all of that cost.
pub fn tpl_r0_decision(s: AreaSums) -> (r: R0Decision)
    requires
        s.count > 0,
        fits(s.recrf_dist * 128),
        fits(s.recrf_dist * 128 + s.mc_dep_delta),
        fits(div_trunc(s.mc_dep_delta as int, s.count as int) * 100),
        fits(s.mc_dep_delta * 9),
    ensures
        r.recrf == s.recrf_dist * 128,
        r.mc_dep_cost_base == s.recrf_dist * 128 + s.mc_dep_delta,
        r.tpl_is_valid == (r.mc_dep_cost_base != 0),
        r.single_cell_dominates == (r.tpl_is_valid && s.max_delta > div_trunc(
            s.mc_dep_delta as int,
            s.count as int,
        ) * 100 && s.max_delta > div_trunc(s.mc_dep_delta * 9, 10)),
{
    let recrf: i64 = s.recrf_dist * 128;
    let base: i64 = recrf + s.mc_dep_delta;
    let valid: bool = base != 0;
    R0Decision {
        recrf,
        mc_dep_cost_base: base,
        tpl_is_valid: valid,
        single_cell_dominates: valid && s.max_delta > (s.mc_dep_delta / s.count) * 100 && s.max_delta > (
        s.mc_dep_delta * 9) / 10,
    }
}

/// A still block hands the whole of what it owes to the one cell it covers.
pub proof fn still_blocks_pass_on_everything(
    grid: Seq<TplStats>,
    g: PicGeo,
    m: int,
    st: TplStats,
    carried: int,
    row: int,
    col: int,
)
    requires
        m == 2 || m == 4 || m == 8,
        st.mv == (Mv { x: 0, y: 0 }),
        geo_ok(g, m, grid.len() as int),
        cell_in_picture(g, row, col, m),
        spread_fits(grid, g, m, st, carried, row * m, col * m, 4),
    ensures
        ({
            let at = cell_index(g, m, row, col);
            let new = spread(grid, g, m, st, carried, row * m, col * m, 4);
            &&& new[at].mc_dep_dist == grid[at].mc_dep_dist + dist_passed_on(st)
            &&& new[at].mc_dep_rate == grid[at].mc_dep_rate + rate_passed_on(st, carried)
            &&& forall|i: int| 0 <= i < grid.len() && i != at ==> #[trigger] new[i] == grid[i]
        }),
{
    let b = 4 * m;
    let mr = row * m;
    let mc = col * m;
    let at = cell_index(g, m, row, col);
    assert(ref_pos(mr, 0) == row * b && ref_pos(mc, 0) == col * b) by (nonlinear_arith)
        requires
            mr == row * m,
            mc == col * m,
            b == 4 * m,
            ref_pos(mr, 0) == 4 * mr,
            ref_pos(mc, 0) == 4 * mc,
    ;
    vstd::arithmetic::div_mod::lemma_div_by_multiple(row, b);
    vstd::arithmetic::div_mod::lemma_div_by_multiple(col, b);
    lemma_mul_nonnegative(row, b);
    lemma_mul_nonnegative(col, b);
    assert(quad_row(st, mr, m, 0) == row && quad_col(st, mc, m, 0) == col);
    assert(quad_row(st, mr, m, 1) == row && quad_col(st, mc, m, 1) == col + 1);
    assert(quad_row(st, mr, m, 2) == row + 1 && quad_col(st, mc, m, 2) == col);
    assert(quad_row(st, mr, m, 3) == row + 1 && quad_col(st, mc, m, 3) == col + 1);
    assert((row + 1) * b == row * b + b && (col + 1) * b == col * b + b) by {
        vstd::arithmetic::mul::lemma_mul_is_distributive_add_other_way(b, row, 1);
        vstd::arithmetic::mul::lemma_mul_is_distributive_add_other_way(b, col, 1);
    }
    assert(quad_area(st, mr, mc, m, 0) == b * b);
    assert(b * b == 16 * (m * m)) by (nonlinear_arith)
        requires
            b == 4 * m,
    ;
    assert(m * m == 4 || m * m == 16 || m * m == 64) by (nonlinear_arith)
        requires
            m == 2 || m == 4 || m == 8,
    ;
    assert(quad_area(st, mr, mc, m, 1) == 0 * b);
    assert(quad_area(st, mr, mc, m, 2) == b * 0);
    assert(quad_area(st, mr, mc, m, 3) == 0);
    lemma_whole_share(dist_passed_on(st), m);
    lemma_whole_share(rate_passed_on(st, carried), m);
    lemma_no_share(dist_passed_on(st), m);
    lemma_no_share(rate_passed_on(st, carried), m);
    reveal_with_fuel(spread, 5);
    reveal_with_fuel(spread_fits, 5);
    assert(0 <= cell_index(g, m, row, col) < grid.len());
    let g1 = deposit(grid, g, m, st, carried, mr, mc, 0);
    let g2 = deposit(g1, g, m, st, carried, mr, mc, 1);
    let g3 = deposit(g2, g, m, st, carried, mr, mc, 2);
    let g4 = deposit(g3, g, m, st, carried, mr, mc, 3);
    lemma_empty_deposit(g1, g, m, st, carried, mr, mc, 1);
    lemma_empty_deposit(g2, g, m, st, carried, mr, mc, 2);
    lemma_empty_deposit(g3, g, m, st, carried, mr, mc, 3);
    assert(spread(grid, g, m, st, carried, mr, mc, 4) == g4);
}

proof fn lemma_whole_share(amount: int, m: int)
    requires
        m == 2 || m == 4 || m == 8,
    ensures
        share_of(amount, 16 * (m * m), m) == amount,
{
    let p = 16 * (m * m);
    assert(p > 0) by (nonlinear_arith)
        requires
            p == 16 * (m * m),
            m >= 2,
    ;
    if amount >= 0 {
        lemma_mul_nonnegative(amount, p);
        vstd::arithmetic::div_mod::lemma_div_by_multiple(amount, p);
    } else {
        assert(-(amount * p) == (-amount) * p) by (nonlinear_arith);
        assert(amount * p < 0) by (nonlinear_arith)
            requires
                amount < 0,
                p > 0,
        ;
        vstd::arithmetic::div_mod::lemma_div_by_multiple(-amount, p);
    }
}

proof fn lemma_no_share(amount: int, m: int)
    requires
        m == 2 || m == 4 || m == 8,
    ensures
        share_of(amount, 0, m) == 0,
{
    assert(amount * 0 == 0);
    assert(16 * (m * m) > 0) by (nonlinear_arith)
        requires
            m >= 2,
    ;
    assert(0int / (16 * (m * m)) == 0) by {
        vstd::arithmetic::div_mod::lemma_div_basics(16 * (m * m));
    }
}

proof fn lemma_empty_deposit(
    grid: Seq<TplStats>,
    g: PicGeo,
    m: int,
    st: TplStats,
    carried: int,
    mi_row: int,
    mi_col: int,
    k: int,
)
    requires
        m == 2 || m == 4 || m == 8,
        quad_area(st, mi_row, mi_col, m, k) == 0,
        geo_ok(g, m, grid.len() as int),
    ensures
        deposit(grid, g, m, st, carried, mi_row, mi_col, k) == grid,
{
    lemma_no_share(dist_passed_on(st), m);
    lemma_no_share(rate_passed_on(st, carried), m);
    let row = quad_row(st, mi_row, m, k);
    let col = quad_col(st, mi_col, m, k);
    if cell_in_picture(g, row, col, m) {
        assert(0 <= cell_index(g, m, row, col) < grid.len());
        assert(deposit(grid, g, m, st, carried, mi_row, mi_col, k) =~= grid);
    }
}

proof fn lemma_product_range(a: int, b: int, m: int)
    requires
        -m <= a <= m,
        -m <= b <= m,
    ensures
        -(m * m) <= a * b <= m * m,
{
    assert(-(m * m) <= a * b <= m * m) by (nonlinear_arith)
        requires
            -m <= a <= m,
            -m <= b <= m,
    ;
}

} // verus!
