//! The quick cost of an intra candidate: the rate of its syntax, priced
//! before its residual is known.

use vstd::prelude::*;

use crate::arith::low_u32;
use crate::rd_cost::inter_cost::{column, rates_ok, rates_zero, FAC_LIMIT, GIVEN_RATE_LIMIT, SIZE_GROUP_LOOKUP};
use crate::rd_cost::{cost_fits, rd, rdcost};
use crate::types::{comp_ref_allowed, is_comp_ref_allowed, BlockSize};

verus! {

/// Whether chroma from luma is allowed or not.
pub const CFL_ALLOWED_TYPES: usize = 2;

/// Planes predicted by chroma from luma.
pub const CFL_PRED_PLANES: usize = 2;

/// Joint signs of the two chroma-from-luma magnitudes.
pub const CFL_JOINT_SIGNS: usize = 8;

/// Chroma-from-luma magnitudes.
pub const CFL_ALPHABET_SIZE: usize = 16;

/// Size contexts of the palette flag.
pub const PALETTE_BSIZE_CTXS: usize = 7;

/// Neighbour contexts of the luma palette flag.
pub const PALETTE_Y_MODE_CONTEXTS: usize = 3;

/// Contexts of the chroma palette flag.
pub const PALETTE_UV_MODE_CONTEXTS: usize = 2;

/// Largest angle offset, in steps.
pub const MAX_ANGLE_DELTA: i32 = 3;

/// The chroma-from-luma mode, the last chroma mode.
pub const UV_CFL_PRED: u8 = 13;

/// The flat chroma mode.
pub const UV_DC_PRED: u8 = 0;

/// The flat luma mode.
const DC_PRED: u8 = 0;

/// The first directional mode.
const V_PRED: u8 = 1;

/// The value of a filter-intra mode that means "not used".
pub const FILTER_INTRA_MODES: u8 = 5;

/// The luma mode whose direction each chroma mode shares; chroma from luma
/// has none.
pub const UV_TO_Y_MODE: [u8; 14] = [0, 1, 2, 3, 4, 5, 6, 7, 8, 9, 10, 11, 12, 0];

/// The modes that predict along a direction.
pub open spec fn directional(mode: int) -> bool {
    1 <= mode <= 8
}

/// Whether a mode predicts along a direction.
pub fn is_directional_mode(mode: u8) -> (r: bool)
    ensures
        r == directional(mode as int),
{
    1 <= mode && mode <= 8
}

/// Rates of the intra syntax, in 1/512 bit.
#[derive(Debug, Clone)]
pub struct IntraFacBits {
    /// Luma mode in key frames, by the contexts above and to the left.
    pub y_mode: [[[i32; 13]; 5]; 5],
    /// Chroma mode, by whether chroma from luma is allowed and by luma mode.
    pub intra_uv_mode: [[[i32; 14]; 13]; 2],
    /// Chroma-from-luma magnitude, by joint sign and plane.
    pub cfl_alpha: [[[i32; 16]; 2]; 8],
    /// Luma palette flag, by size context and neighbour context.
    pub palette_ymode: [[[i32; 2]; 3]; 7],
    /// Luma mode outside key frames, by size group.
    pub mb_mode: [[i32; 13]; 4],
    /// Angle offset, by directional mode.
    pub angle_delta: [[i32; 7]; 8],
    /// Filter-intra flag, by block size.
    pub filter_intra: [[i32; 2]; 22],
    /// Chroma palette flag, by whether luma has one.
    pub palette_uv_mode: [[i32; 2]; 2],
    /// Intra-or-inter flag, by context.
    pub intra_inter: [[i32; 2]; 4],
    /// Skip-mode flag, by context.
    pub skip_mode: [[i32; 2]; 3],
    /// Filter-intra mode.
    pub filter_intra_mode: [i32; 5],
    /// Block-copy flag.
    pub intrabc: [i32; 2],
}

/// Every table of a list of tables holds rates below the bound.
pub open spec fn rates3_ok<const B: usize, const C: usize>(t: Seq<[[i32; C]; B]>) -> bool {
    forall|i: int| 0 <= i < t.len() ==> rates_ok(#[trigger] t[i]@)
}

/// Every table of a list of tables is zero.
pub open spec fn rates3_zero<const B: usize, const C: usize>(t: Seq<[[i32; C]; B]>) -> bool {
    forall|i: int| 0 <= i < t.len() ==> rates_zero(#[trigger] t[i]@)
}

/// Every rate is below the bound.
pub open spec fn intra_rates_wf(t: IntraFacBits) -> bool {
    &&& rates3_ok(t.y_mode@)
    &&& rates3_ok(t.intra_uv_mode@)
    &&& rates3_ok(t.cfl_alpha@)
    &&& rates3_ok(t.palette_ymode@)
    &&& rates_ok(t.mb_mode@)
    &&& rates_ok(t.angle_delta@)
    &&& rates_ok(t.filter_intra@)
    &&& rates_ok(t.palette_uv_mode@)
    &&& rates_ok(t.intra_inter@)
    &&& rates_ok(t.skip_mode@)
    &&& forall|i: int| 0 <= i < 5 ==> 0 <= #[trigger] t.filter_intra_mode[i] <= FAC_LIMIT
    &&& forall|i: int| 0 <= i < 2 ==> 0 <= #[trigger] t.intrabc[i] <= FAC_LIMIT
}

/// Every rate is zero.
pub open spec fn intra_rates_zero(t: IntraFacBits) -> bool {
    &&& rates3_zero(t.y_mode@)
    &&& rates3_zero(t.intra_uv_mode@)
    &&& rates3_zero(t.cfl_alpha@)
    &&& rates3_zero(t.palette_ymode@)
    &&& rates_zero(t.mb_mode@)
    &&& rates_zero(t.angle_delta@)
    &&& rates_zero(t.filter_intra@)
    &&& rates_zero(t.palette_uv_mode@)
    &&& rates_zero(t.intra_inter@)
    &&& rates_zero(t.skip_mode@)
    &&& forall|i: int| 0 <= i < 5 ==> #[trigger] t.filter_intra_mode[i] == 0
    &&& forall|i: int| 0 <= i < 2 ==> #[trigger] t.intrabc[i] == 0
}

impl IntraFacBits {
    /// All-zero rates.
    pub fn zeroed() -> (r: Self)
        ensures
            intra_rates_wf(r),
            intra_rates_zero(r),
    {
        IntraFacBits {
            y_mode: [[[0; 13]; 5]; 5],
            intra_uv_mode: [[[0; 14]; 13]; 2],
            cfl_alpha: [[[0; 16]; 2]; 8],
            palette_ymode: [[[0; 2]; 3]; 7],
            mb_mode: [[0; 13]; 4],
            angle_delta: [[0; 7]; 8],
            filter_intra: [[0; 2]; 22],
            palette_uv_mode: [[0; 2]; 2],
            intra_inter: [[0; 2]; 4],
            skip_mode: [[0; 2]; 3],
            filter_intra_mode: [0; 5],
            intrabc: [0; 2],
        }
    }
}

impl Default for IntraFacBits {
    fn default() -> (r: Self)
        ensures
            intra_rates_wf(r),
            intra_rates_zero(r),
    {
        IntraFacBits::zeroed()
    }
}

/// What the quick cost reads of a frame and a block.
#[derive(Debug, Clone, Copy)]
pub struct IntraBlock {
    pub bsize: BlockSize,
    /// The block belongs to an intra-only slice.
    pub is_key_slice: bool,
    pub allow_intrabc: bool,
    /// The frame and the block size permit palettes.
    pub allow_palette: bool,
    /// The block carries the chroma of its area.
    pub is_chroma_reference: bool,
    pub skip_mode_flag: bool,
    pub filter_intra_level: u8,
    /// The block codes chroma.
    pub has_uv: bool,
    pub intra_luma_top_ctx: usize,
    pub intra_luma_left_ctx: usize,
    pub is_inter_ctx: usize,
    pub skip_mode_ctx: usize,
    pub palette_bsize_ctx: usize,
    pub palette_mode_ctx: usize,
}

/// Numbers of colours of a palette.
#[derive(Debug, Clone, Copy, PartialEq, Eq, Structural)]
pub struct PaletteSizes {
    pub y: u8,
    pub uv: u8,
}

impl Default for PaletteSizes {
    fn default() -> (r: Self)
        ensures
            r == (PaletteSizes { y: 0, uv: 0 }),
    {
        PaletteSizes { y: 0, uv: 0 }
    }
}

/// What the quick cost reads of a candidate.
#[derive(Debug, Clone, Copy)]
pub struct IntraCandidate {
    pub mode: u8,
    pub uv_mode: u8,
    pub angle_delta_y: i32,
    pub angle_delta_uv: i32,
    pub cfl_alpha_signs: u8,
    /// Magnitude of the first plane in the high half, of the second in the
    /// low half.
    pub cfl_alpha_idx: u8,
    pub filter_intra_mode: u8,
    pub palette: Option<PaletteSizes>,
    /// Rate of the luma palette and its map.
    pub palette_mode_cost: u64,
    pub use_intrabc: bool,
    /// Weighted rate of the block vector.
    pub dv_bits: u64,
}

/// A quick cost and the rates behind it.
#[derive(Debug, Clone, Copy, PartialEq, Eq, Structural)]
pub struct IntraFastCost {
    pub cost: u64,
    pub fast_luma_rate: u64,
    pub fast_chroma_rate: u64,
}

/// Contexts lie inside the tables.
pub open spec fn intra_block_ok(b: IntraBlock) -> bool {
    &&& b.intra_luma_top_ctx < 5
    &&& b.intra_luma_left_ctx < 5
    &&& b.is_inter_ctx < 4
    &&& b.skip_mode_ctx < 3
    &&& b.palette_bsize_ctx < 7
    &&& b.palette_mode_ctx < 3
}

/// Modes lie inside the tables and given rates below their bounds.
pub open spec fn intra_candidate_ok(c: IntraCandidate) -> bool {
    &&& c.mode < 13
    &&& c.uv_mode < 14
    &&& -3 <= c.angle_delta_y <= 3
    &&& -3 <= c.angle_delta_uv <= 3
    &&& c.cfl_alpha_signs < 8
    &&& c.filter_intra_mode <= 5
    &&& c.palette_mode_cost <= GIVEN_RATE_LIMIT
}

/// Blocks that may shift a direction: 8x8 and every later size in coding
/// order, the four-to-one sizes with a side of four among them.
pub open spec fn codes_angle(bsize: BlockSize) -> bool {
    bsize.index() >= 3
}

/// The candidate has luma colours.
pub open spec fn has_y_palette(c: IntraCandidate) -> bool {
    c.palette is Some && c.palette->0.y > 0
}

/// The candidate has chroma colours.
pub open spec fn has_uv_palette(c: IntraCandidate) -> bool {
    c.palette is Some && c.palette->0.uv > 0
}

fn y_colors(c: &IntraCandidate) -> (r: u8)
    ensures
        r == (if c.palette is Some {
            c.palette->0.y
        } else {
            0
        }),
        (r > 0) == has_y_palette(*c),
{
    match c.palette {
        Some(p) => p.y,
        None => 0,
    }
}

fn uv_colors(c: &IntraCandidate) -> (r: u8)
    ensures
        (r > 0) == has_uv_palette(*c),
{
    match c.palette {
        Some(p) => p.uv,
        None => 0,
    }
}

/// The chroma mode that is priced: while the magnitudes are unknown, chroma
/// from luma counts as the flat mode.
pub open spec fn priced_uv_mode(c: IntraCandidate, accurate: bool) -> int {
    if c.uv_mode == UV_CFL_PRED && !accurate {
        0
    } else {
        c.uv_mode as int
    }
}

/// Chroma from luma is allowed up to 32 by 32.
pub open spec fn cfl_allowed(bsize: BlockSize) -> bool {
    bsize.wide_spec() <= 32 && bsize.high_spec() <= 32
}

/// Rate of the chroma mode.
pub open spec fn uv_bits(b: IntraBlock, c: IntraCandidate, accurate: bool, t: IntraFacBits) -> int {
    let m = priced_uv_mode(c, accurate);
    t.intra_uv_mode[column(cfl_allowed(b.bsize))][c.mode as int][m] + (if codes_angle(b.bsize)
        && directional(m) {
        t.angle_delta[m - 1][3 + c.angle_delta_uv] as int
    } else {
        0
    }) + (if m == UV_CFL_PRED {
        t.cfl_alpha[c.cfl_alpha_signs as int][0][c.cfl_alpha_idx as int / 16]
            + t.cfl_alpha[c.cfl_alpha_signs as int][1][c.cfl_alpha_idx as int % 16]
    } else {
        0
    }) + (if m == UV_DC_PRED && b.allow_palette && b.is_chroma_reference {
        t.palette_uv_mode[column(has_y_palette(c))][column(has_uv_palette(c))] as int
    } else {
        0
    })
}

/// Rate of the chroma mode of a candidate.
pub fn get_intra_uv_fast_rate(
    block: &IntraBlock,
    cand: &IntraCandidate,
    use_accurate_cfl: bool,
    t: &IntraFacBits,
) -> (r: u64)
    requires
        intra_rates_wf(*t),
        intra_candidate_ok(*cand),
    ensures
        r == uv_bits(*block, *cand, use_accurate_cfl, *t),
        r <= 5 * FAC_LIMIT,
{
    let is_cfl_allowed: usize = if block.bsize.wide() <= 32 && block.bsize.high() <= 32 {
        1
    } else {
        0
    };
    let chroma_mode: u8 = if cand.uv_mode == UV_CFL_PRED && !use_accurate_cfl {
        UV_DC_PRED
    } else {
        cand.uv_mode
    };
    assert(rates_ok(t.intra_uv_mode@[is_cfl_allowed as int]@));
    assert(0 <= t.intra_uv_mode[is_cfl_allowed as int]@[cand.mode as int][chroma_mode as int] <= FAC_LIMIT);
    let mut chroma_rate: u64 =
        t.intra_uv_mode[is_cfl_allowed][cand.mode as usize][chroma_mode as usize] as u64;
    if block.bsize.as_index() >= 3 && is_directional_mode(UV_TO_Y_MODE[chroma_mode as usize]) {
        let row: usize = (chroma_mode - V_PRED) as usize;
        let col: usize = (MAX_ANGLE_DELTA + cand.angle_delta_uv) as usize;
        assert(0 <= t.angle_delta@[row as int][col as int] <= FAC_LIMIT);
        chroma_rate = chroma_rate + t.angle_delta[row][col] as u64;
    }
    if chroma_mode == UV_CFL_PRED {
        let signs: usize = cand.cfl_alpha_signs as usize;
        let idx_u: usize = (cand.cfl_alpha_idx / 16) as usize;
        let idx_v: usize = (cand.cfl_alpha_idx % 16) as usize;
        assert(rates_ok(t.cfl_alpha@[signs as int]@));
        assert(0 <= t.cfl_alpha[signs as int]@[0][idx_u as int] <= FAC_LIMIT);
        assert(0 <= t.cfl_alpha[signs as int]@[1][idx_v as int] <= FAC_LIMIT);
        chroma_rate = chroma_rate + t.cfl_alpha[signs][0][idx_u] as u64 + t.cfl_alpha[signs][1][idx_v] as u64;
    }
    if chroma_mode == UV_DC_PRED && block.allow_palette && block.is_chroma_reference {
        let use_palette_y: usize = if y_colors(cand) > 0 {
            1
        } else {
            0
        };
        let use_palette_uv: usize = if uv_colors(cand) > 0 {
            1
        } else {
            0
        };
        assert(0 <= t.palette_uv_mode@[use_palette_y as int][use_palette_uv as int] <= FAC_LIMIT);
        chroma_rate = chroma_rate + t.palette_uv_mode[use_palette_y][use_palette_uv] as u64;
    }
    chroma_rate
}

/// Filter intra is available: flat luma mode, no palette, at most 32 by 32.
pub open spec fn filter_intra_ok(level: u8, bsize: BlockSize, palette_size: u8, mode: u8) -> bool {
    level != 0 && mode == 0 && palette_size == 0 && bsize.wide_spec() <= 32 && bsize.high_spec() <= 32
}

/// Whether filter intra is available to a block.
pub fn filter_intra_allowed(filter_intra_level: u8, bsize: BlockSize, palette_size: u8, mode: u8) -> (r: bool)
    ensures
        r == filter_intra_ok(filter_intra_level, bsize, palette_size, mode),
{
    filter_intra_level != 0 && mode == DC_PRED && palette_size == 0 && bsize.wide() <= 32 && bsize.high() <= 32
}

/// Rate of what outside intra-only slices precedes the mode: intra, and not
/// in skip mode.
pub open spec fn intra_header_bits(b: IntraBlock, t: IntraFacBits) -> int {
    if b.is_key_slice {
        0
    } else {
        t.intra_inter[b.is_inter_ctx as int][0] + if b.skip_mode_flag && comp_ref_allowed(b.bsize) {
            t.skip_mode[b.skip_mode_ctx as int][0] as int
        } else {
            0
        }
    }
}

fn intra_header_rate(block: &IntraBlock, t: &IntraFacBits) -> (r: u64)
    requires
        intra_rates_wf(*t),
        intra_block_ok(*block),
    ensures
        r == intra_header_bits(*block, *t),
        r <= 2 * FAC_LIMIT,
{
    if block.is_key_slice {
        return 0;
    }
    assert(0 <= t.intra_inter@[block.is_inter_ctx as int][0] <= FAC_LIMIT);
    assert(0 <= t.skip_mode@[block.skip_mode_ctx as int][0] <= FAC_LIMIT);
    let is_inter_rate: u64 = t.intra_inter[block.is_inter_ctx][0] as u64;
    if block.skip_mode_flag && is_comp_ref_allowed(block.bsize) {
        is_inter_rate + t.skip_mode[block.skip_mode_ctx][0] as u64
    } else {
        is_inter_rate
    }
}

/// Rate of the luma mode and of its angle.
pub open spec fn y_mode_bits(b: IntraBlock, c: IntraCandidate, t: IntraFacBits) -> int {
    (if b.is_key_slice {
        t.y_mode[b.intra_luma_top_ctx as int][b.intra_luma_left_ctx as int][c.mode as int] as int
    } else {
        t.mb_mode[SIZE_GROUP_LOOKUP[b.bsize.index()] as int][c.mode as int] as int
    }) + (if codes_angle(b.bsize) && directional(c.mode as int) {
        t.angle_delta[c.mode - 1][3 + c.angle_delta_y] as int
    } else {
        0
    })
}

fn y_mode_rate(block: &IntraBlock, cand: &IntraCandidate, t: &IntraFacBits) -> (r: u64)
    requires
        intra_rates_wf(*t),
        intra_block_ok(*block),
        intra_candidate_ok(*cand),
    ensures
        r == y_mode_bits(*block, *cand, *t),
        r <= 2 * FAC_LIMIT,
{
    let bi: usize = block.bsize.as_index();
    let mode: usize = cand.mode as usize;
    let bits: u64 = if block.is_key_slice {
        let top: usize = block.intra_luma_top_ctx;
        let left: usize = block.intra_luma_left_ctx;
        assert(rates_ok(t.y_mode@[top as int]@));
        assert(0 <= t.y_mode[top as int]@[left as int][mode as int] <= FAC_LIMIT);
        t.y_mode[top][left][mode] as u64
    } else {
        let group: usize = SIZE_GROUP_LOOKUP[bi] as usize;
        assert(group < 4);
        assert(0 <= t.mb_mode@[group as int][mode as int] <= FAC_LIMIT);
        t.mb_mode[group][mode] as u64
    };
    if bi >= 3 && is_directional_mode(cand.mode) {
        let row: usize = (cand.mode - V_PRED) as usize;
        let col: usize = (MAX_ANGLE_DELTA + cand.angle_delta_y) as usize;
        assert(0 <= t.angle_delta@[row as int][col as int] <= FAC_LIMIT);
        bits + t.angle_delta[row][col] as u64
    } else {
        bits
    }
}

/// Rate of the luma palette, and of saying that there is none.
pub open spec fn palette_bits(b: IntraBlock, c: IntraCandidate, t: IntraFacBits) -> int {
    if b.allow_palette && c.mode == 0 {
        t.palette_ymode[b.palette_bsize_ctx as int][b.palette_mode_ctx as int][column(
            has_y_palette(c),
        )] + if has_y_palette(c) {
            c.palette_mode_cost as int
        } else {
            0
        }
    } else {
        0
    }
}

fn palette_rate(block: &IntraBlock, cand: &IntraCandidate, t: &IntraFacBits) -> (r: u64)
    requires
        intra_rates_wf(*t),
        intra_block_ok(*block),
        intra_candidate_ok(*cand),
    ensures
        r == palette_bits(*block, *cand, *t),
        r <= FAC_LIMIT + GIVEN_RATE_LIMIT,
{
    if !block.allow_palette || cand.mode != DC_PRED {
        return 0;
    }
    let size_ctx: usize = block.palette_bsize_ctx;
    let mode_ctx: usize = block.palette_mode_ctx;
    assert(rates_ok(t.palette_ymode@[size_ctx as int]@));
    assert(0 <= t.palette_ymode[size_ctx as int]@[mode_ctx as int][0] <= FAC_LIMIT);
    assert(0 <= t.palette_ymode[size_ctx as int]@[mode_ctx as int][1] <= FAC_LIMIT);
    if y_colors(cand) > 0 {
        t.palette_ymode[size_ctx][mode_ctx][1] as u64 + cand.palette_mode_cost
    } else {
        t.palette_ymode[size_ctx][mode_ctx][0] as u64
    }
}

/// Rate of filter intra where it is available.
pub open spec fn filter_bits(b: IntraBlock, c: IntraCandidate, t: IntraFacBits) -> int {
    let colors = if c.palette is Some {
        c.palette->0.y
    } else {
        0
    };
    if filter_intra_ok(b.filter_intra_level, b.bsize, colors, c.mode) {
        t.filter_intra[b.bsize.index()][column(c.filter_intra_mode != FILTER_INTRA_MODES)]
            + if c.filter_intra_mode != FILTER_INTRA_MODES {
            t.filter_intra_mode[c.filter_intra_mode as int] as int
        } else {
            0
        }
    } else {
        0
    }
}

fn filter_rate(block: &IntraBlock, cand: &IntraCandidate, t: &IntraFacBits) -> (r: u64)
    requires
        intra_rates_wf(*t),
        intra_candidate_ok(*cand),
    ensures
        r == filter_bits(*block, *cand, *t),
        r <= 2 * FAC_LIMIT,
{
    if !filter_intra_allowed(block.filter_intra_level, block.bsize, y_colors(cand), cand.mode) {
        return 0;
    }
    let bi: usize = block.bsize.as_index();
    assert(0 <= t.filter_intra@[bi as int][0] <= FAC_LIMIT);
    assert(0 <= t.filter_intra@[bi as int][1] <= FAC_LIMIT);
    if cand.filter_intra_mode != FILTER_INTRA_MODES {
        t.filter_intra[bi][1] as u64 + t.filter_intra_mode[cand.filter_intra_mode as usize] as u64
    } else {
        t.filter_intra[bi][0] as u64
    }
}

/// The candidate copies a block of the same frame.
pub open spec fn copies_block(b: IntraBlock, c: IntraCandidate) -> bool {
    b.allow_intrabc && c.use_intrabc
}

/// Luma rate of a candidate. A block copy pays for its vector and its flag
/// alone.
pub open spec fn intra_luma_bits(b: IntraBlock, c: IntraCandidate, t: IntraFacBits) -> int {
    if copies_block(b, c) {
        c.dv_bits + t.intrabc[1]
    } else {
        (intra_header_bits(b, t) + y_mode_bits(b, c, t) + palette_bits(b, c, t) + filter_bits(b, c, t)
            + if b.allow_intrabc {
            t.intrabc[0] as int
        } else {
            0
        }) % 0x1_0000_0000
    }
}

/// Chroma rate of a candidate.
pub open spec fn intra_chroma_bits(b: IntraBlock, c: IntraCandidate, t: IntraFacBits) -> int {
    if !copies_block(b, c) && b.has_uv {
        uv_bits(b, c, false, t)
    } else {
        0
    }
}

/// Quick cost of an intra candidate.
pub fn intra_fast_cost(
    block: &IntraBlock,
    cand: &IntraCandidate,
    lambda: u64,
    luma_distortion: u64,
    t: &IntraFacBits,
) -> (r: IntraFastCost)
    requires
        if copies_block(*block, *cand) {
            0 <= t.intrabc[1]
        } else {
            intra_rates_wf(*t) && intra_block_ok(*block) && intra_candidate_ok(*cand)
        },
        cost_fits(
            lambda as int,
            intra_luma_bits(*block, *cand, *t) + intra_chroma_bits(*block, *cand, *t),
            luma_distortion as int,
        ),
    ensures
        r.fast_luma_rate == intra_luma_bits(*block, *cand, *t),
        r.fast_chroma_rate == intra_chroma_bits(*block, *cand, *t),
        r.cost == rd(
            lambda as int,
            r.fast_luma_rate + r.fast_chroma_rate,
            luma_distortion as int,
        ),
{
    if block.allow_intrabc && cand.use_intrabc {
        let rate: u64 = cand.dv_bits + t.intrabc[1] as u64;
        return IntraFastCost {
            cost: rdcost(lambda, rate, luma_distortion),
            fast_luma_rate: rate,
            fast_chroma_rate: 0,
        };
    }
    let header: u64 = intra_header_rate(block, t);
    let mode: u64 = y_mode_rate(block, cand, t);
    let palette: u64 = palette_rate(block, cand, t);
    let filter: u64 = filter_rate(block, cand, t);
    let no_copy: u64 = if block.allow_intrabc {
        t.intrabc[0] as u64
    } else {
        0
    };
    let chroma_rate: u64 = if block.has_uv {
        get_intra_uv_fast_rate(block, cand, false, t)
    } else {
        0
    };
    let luma_rate: u32 = low_u32(header + mode + palette + filter + no_copy);
    let rate: u64 = luma_rate as u64 + chroma_rate;
    IntraFastCost {
        cost: rdcost(lambda, rate, luma_distortion),
        fast_luma_rate: luma_rate as u64,
        fast_chroma_rate: chroma_rate,
    }
}

/// A block copy pays for neither mode, palette, filter nor chroma: two copies
/// with the same vector rate cost the same, whatever else they carry.
pub proof fn block_copy_ignores_the_modes(
    b: IntraBlock,
    c1: IntraCandidate,
    c2: IntraCandidate,
    t: IntraFacBits,
)
    requires
        b.allow_intrabc,
        c1.use_intrabc,
        c2.use_intrabc,
        c1.dv_bits == c2.dv_bits,
    ensures
        intra_luma_bits(b, c1, t) == intra_luma_bits(b, c2, t),
        intra_chroma_bits(b, c1, t) == intra_chroma_bits(b, c2, t),
{
}

/// Chroma from luma never pays an angle, and priced without its magnitudes it
/// costs what the flat mode costs.
pub proof fn coarse_cfl_is_priced_as_dc(b: IntraBlock, c: IntraCandidate, t: IntraFacBits)
    requires
        c.uv_mode == UV_CFL_PRED,
    ensures
        uv_bits(b, c, false, t) == uv_bits(b, (IntraCandidate { uv_mode: UV_DC_PRED, ..c }), true, t),
{
}

} // verus!
