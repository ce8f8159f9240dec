//! The decisions of the look-ahead search: which blocks of a superblock are
//! searched, what each is predicted from, and which statistics it leaves.

use vstd::arithmetic::mul::{lemma_mul_inequality, lemma_mul_is_distributive_add_other_way, lemma_mul_nonnegative};
use vstd::prelude::*;

use crate::arith::{low_i16, max_int, min_int, wrap_i16};
use crate::rd_cost::intra_cost::is_directional_mode;
use crate::tpl::{
    coded_block_stats, CodedBlockStats, TplData, TplSrcStats, TplStats, BLK_END_ARRAY, BLK_START_ARRAY,
    CODED_UNIT_STATS, DC_PRED, MAX_TPL_LA_SW, NEWMV, SIZE_ARRAY, SUB2_TX_SIZE_ARRAY, SUB4_TX_SIZE_ARRAY,
    TPL_BLK_IDX_TAB, TX_SIZE_ARRAY,
};
use crate::tpl::search::MI_LIMIT;
use crate::types::{Mv, SliceType};

verus! {

/// A block of a superblock that is searched.
#[derive(Debug, Clone, Copy, PartialEq, Eq, Structural)]
pub struct TplBlock {
    pub size: u32,
    pub x: u32,
    pub y: u32,
}

/// Side of the blocks of a search level.
pub open spec fn level_size(level: int) -> int {
    if level == 0 {
        16
    } else if level == 1 {
        32
    } else {
        64
    }
}

/// Coding unit of block `i`.
pub open spec fn unit_of(i: int) -> int {
    TPL_BLK_IDX_TAB[0][i] as int
}

/// Horizontal place of block `i` in its superblock.
pub open spec fn block_x(i: int) -> int {
    CODED_UNIT_STATS[unit_of(i)][3] as int
}

/// Vertical place of block `i` in its superblock.
pub open spec fn block_y(i: int) -> int {
    CODED_UNIT_STATS[unit_of(i)][4] as int
}

/// The blocks of a search level.
pub open spec fn level_has(level: int, i: int) -> bool {
    BLK_START_ARRAY[level] <= i <= BLK_END_ARRAY[level]
}

pub proof fn lemma_level_blocks(level: int, i: int)
    requires
        0 <= level < 3,
        level_has(level, i),
    ensures
        0 <= i < 21,
        0 <= unit_of(i) < 85,
        CODED_UNIT_STATS[unit_of(i)][1] == level_size(level),
        SIZE_ARRAY[level] == level_size(level),
        block_x(i) <= 48,
        block_y(i) <= 48,
        block_x(i) + level_size(level) <= 64,
        block_y(i) + level_size(level) <= 64,
{
    if level == 0 {
        assert(i == 5 || i == 6 || i == 7 || i == 8 || i == 9 || i == 10 || i == 11 || i == 12 || i == 13 || i == 14
            || i == 15 || i == 16 || i == 17 || i == 18 || i == 19 || i == 20);
    } else if level == 1 {
        assert(i == 1 || i == 2 || i == 3 || i == 4);
    } else {
        assert(i == 0);
    }
}

/// Half of the block at least lies inside the frame.
pub open spec fn half_inside(x: int, y: int, size: int, width: int, height: int) -> bool {
    x + size / 2 <= width && y + size / 2 <= height
}

/// Block `i` of a superblock, unless less than half of it lies inside the
/// frame.
pub fn tpl_block(level: usize, i: usize, sb_x: u32, sb_y: u32, width: u32, height: u32) -> (r: Option<TplBlock>)
    requires
        level < 3,
        level_has(level as int, i as int),
        sb_x <= 4 * MI_LIMIT,
        sb_y <= 4 * MI_LIMIT,
    ensures
        r is Some <==> half_inside(
            sb_x + block_x(i as int),
            sb_y + block_y(i as int),
            level_size(level as int),
            width as int,
            height as int,
        ),
        r is Some ==> r->0.size == level_size(level as int) && r->0.x == sb_x + block_x(i as int) && r->0.y == sb_y
            + block_y(i as int),
{
    proof {
        lemma_level_blocks(level as int, i as int);
    }
    let size: u32 = SIZE_ARRAY[level];
    let unit: CodedBlockStats = coded_block_stats(TPL_BLK_IDX_TAB[0][i] as usize);
    let x: u32 = sb_x + unit.org_x as u32;
    let y: u32 = sb_y + unit.org_y as u32;
    if x + size / 2 > width || y + size / 2 > height {
        return None;
    }
    Some(TplBlock { size, x, y })
}

/// The blocks of a search level tile a superblock: every place on the level's
/// grid belongs to a block, and to one only.
pub proof fn level_blocks_tile_the_superblock(level: int, gx: int, gy: int)
    requires
        0 <= level < 3,
        0 <= gx < 64int / level_size(level),
        0 <= gy < 64int / level_size(level),
    ensures
        exists|i: int|
            #[trigger] level_has(level, i) && block_x(i) == gx * level_size(level) && block_y(i) == gy * level_size(
                level,
            ),
        forall|i: int, j: int|
            #[trigger] level_has(level, i) && #[trigger] level_has(level, j) && block_x(i) == block_x(j)
                && block_y(i) == block_y(j) ==> i == j,
{
    if level == 0 {
        assert(gx == 0 || gx == 1 || gx == 2 || gx == 3);
        assert(gy == 0 || gy == 1 || gy == 2 || gy == 3);
        // Within a quarter, then quarter by quarter.
        let i = 5 + 8 * (gy / 2) + 4 * (gx / 2) + 2 * (gy % 2) + gx % 2;
        assert(level_has(level, i));
        assert(block_x(i) == gx * 16 && block_y(i) == gy * 16);
        assert forall|i: int, j: int|
            #[trigger] level_has(level, i) && #[trigger] level_has(level, j) && block_x(i) == block_x(j) && block_y(
                i,
            ) == block_y(j) implies i == j by {
            lemma_place_decides(i);
            lemma_place_decides(j);
        }
    } else if level == 1 {
        assert(gx == 0 || gx == 1);
        assert(gy == 0 || gy == 1);
        let i = 1 + 2 * gy + gx;
        assert(level_has(level, i));
        assert(block_x(i) == gx * 32 && block_y(i) == gy * 32);
        assert forall|i: int, j: int|
            #[trigger] level_has(level, i) && #[trigger] level_has(level, j) && block_x(i) == block_x(j) && block_y(
                i,
            ) == block_y(j) implies i == j by {
            assert(i == 1 || i == 2 || i == 3 || i == 4);
            assert(j == 1 || j == 2 || j == 3 || j == 4);
        }
    } else {
        assert(level_has(level, 0));
        assert(block_x(0) == gx * 64 && block_y(0) == gy * 64);
    }
}

proof fn lemma_place_decides(i: int)
    requires
        5 <= i <= 20,
    ensures
        i == 5 + 8 * (block_y(i) / 32) + 4 * (block_x(i) / 32) + 2 * ((block_y(i) / 16) % 2) + (block_x(i) / 16) % 2,
{
    assert(i == 5 || i == 6 || i == 7 || i == 8 || i == 9 || i == 10 || i == 11 || i == 12 || i == 13 || i == 14 || i
        == 15 || i == 16 || i == 17 || i == 18 || i == 19 || i == 20);
}

/// Search level of a superblock: blocks at the frame edge take the finest.
pub fn tpl_sb_level(is_full_64x64: bool, dispenser_search_level: u8) -> (r: usize)
    ensures
        r == (if is_full_64x64 {
            dispenser_search_level as int
        } else {
            0
        }),
{
    if is_full_64x64 {
        dispenser_search_level as usize
    } else {
        0
    }
}

/// Transform size of a search level when `subsample_tx` of 1 or 2 leaves out
/// every other row, or three rows of four.
pub fn tpl_tx_size(level: usize, subsample_tx: u8) -> (r: usize)
    requires
        level < 3,
    ensures
        r == (if subsample_tx == 2 {
            SUB4_TX_SIZE_ARRAY[level as int]
        } else if subsample_tx == 1 {
            SUB2_TX_SIZE_ARRAY[level as int]
        } else {
            TX_SIZE_ARRAY[level as int]
        }),
{
    if subsample_tx == 2 {
        SUB4_TX_SIZE_ARRAY[level]
    } else if subsample_tx == 1 {
        SUB2_TX_SIZE_ARRAY[level]
    } else {
        TX_SIZE_ARRAY[level]
    }
}

/// Sides of the transforms that blocks are searched with, in samples.
pub open spec fn tx_sides(tx_size: int) -> (int, int) {
    if tx_size == 2 {
        (16, 16)
    } else if tx_size == 3 {
        (32, 32)
    } else if tx_size == 4 {
        (64, 64)
    } else if tx_size == 8 {
        (16, 8)
    } else if tx_size == 10 {
        (32, 16)
    } else if tx_size == 12 {
        (64, 32)
    } else if tx_size == 14 {
        (16, 4)
    } else if tx_size == 16 {
        (32, 8)
    } else {
        (64, 16)
    }
}

/// A transform that blocks are searched with.
pub open spec fn searches_with(tx_size: int) -> bool {
    ||| tx_size == 2 || tx_size == 3 || tx_size == 4
    ||| tx_size == 8 || tx_size == 10 || tx_size == 12
    ||| tx_size == 14 || tx_size == 16 || tx_size == 18
}

/// Width and height of a transform.
pub fn tx_dims(tx_size: usize) -> (r: (usize, usize))
    requires
        searches_with(tx_size as int),
    ensures
        r.0 == tx_sides(tx_size as int).0,
        r.1 == tx_sides(tx_size as int).1,
{
    if tx_size == 2 {
        (16, 16)
    } else if tx_size == 3 {
        (32, 32)
    } else if tx_size == 4 {
        (64, 64)
    } else if tx_size == 8 {
        (16, 8)
    } else if tx_size == 10 {
        (32, 16)
    } else if tx_size == 12 {
        (64, 32)
    } else if tx_size == 14 {
        (16, 4)
    } else if tx_size == 16 {
        (32, 8)
    } else {
        (64, 16)
    }
}

/// The transform of a search level is as wide as its blocks, and as high as
/// the rows that are not left out.
pub proof fn transforms_fit_their_blocks(level: int)
    requires
        0 <= level < 3,
    ensures
        searches_with(TX_SIZE_ARRAY[level] as int),
        searches_with(SUB2_TX_SIZE_ARRAY[level] as int),
        searches_with(SUB4_TX_SIZE_ARRAY[level] as int),
        tx_sides(TX_SIZE_ARRAY[level] as int) == (SIZE_ARRAY[level] as int, SIZE_ARRAY[level] as int),
        tx_sides(SUB2_TX_SIZE_ARRAY[level] as int) == (SIZE_ARRAY[level] as int, SIZE_ARRAY[level] as int / 2),
        tx_sides(SUB4_TX_SIZE_ARRAY[level] as int) == (SIZE_ARRAY[level] as int, SIZE_ARRAY[level] as int / 4),
{
    if level == 0 {
    } else if level == 1 {
    } else {
    }
}

/// Position of block `i` among the motion-search results. Without results
/// for 16x16 blocks, that of the 32x32 block around it.
pub fn tpl_me_offset(i: usize, enable_me_16x16: bool) -> (r: usize)
    requires
        i < 21,
        !enable_me_16x16 ==> i > 0,
    ensures
        r == (if enable_me_16x16 {
            TPL_BLK_IDX_TAB[1][i as int] as int
        } else {
            (TPL_BLK_IDX_TAB[1][i as int] - 1) / 4
        }),
        r < 21,
        !enable_me_16x16 ==> r < 5,
{
    assert(TPL_BLK_IDX_TAB[1][i as int] <= 20 && (i > 0 ==> TPL_BLK_IDX_TAB[1][i as int] >= 1)) by {
        assert(i == 0 || i == 1 || i == 2 || i == 3 || i == 4 || i == 5 || i == 6 || i == 7 || i == 8 || i == 9 || i
            == 10 || i == 11 || i == 12 || i == 13 || i == 14 || i == 15 || i == 16 || i == 17 || i == 18 || i == 19
            || i == 20);
    }
    let off: usize = TPL_BLK_IDX_TAB[1][i] as usize;
    if enable_me_16x16 {
        off
    } else {
        (off - 1) / 4
    }
}

/// Whether intra prediction is left out: in the top layer, where so set.
pub fn tpl_intra_disabled(disable_intra_pred_nref: bool, temporal_layer_index: u8, hierarchical_levels: u8) -> (r:
    bool)
    ensures
        r == (disable_intra_pred_nref && temporal_layer_index == hierarchical_levels),
{
    disable_intra_pred_nref && temporal_layer_index == hierarchical_levels
}

/// A reference of a block.
#[derive(Debug, Clone, Copy, PartialEq, Eq, Structural)]
pub struct TplRef {
    pub list: usize,
    pub ref_idx: usize,
    /// Position among all references: the first list has four.
    pub rf_idx: i32,
}

/// Position of a reference among all references.
pub open spec fn rf_position(list: int, ref_idx: int) -> int {
    if list == 0 {
        ref_idx
    } else {
        4 + ref_idx
    }
}

/// List of a reference, from its position among all.
pub open spec fn rf_list(rf_idx: int) -> int {
    if rf_idx < 4 {
        0
    } else {
        1
    }
}

/// Position in its list.
pub open spec fn rf_in_list(rf_idx: int) -> int {
    if rf_idx >= 4 {
        rf_idx - 4
    } else {
        rf_idx
    }
}

/// A position among all references names one reference.
pub proof fn reference_positions_are_reversible(list: int, ref_idx: int)
    requires
        0 <= list < 2,
        0 <= ref_idx < 4,
    ensures
        rf_list(rf_position(list, ref_idx)) == list,
        rf_in_list(rf_position(list, ref_idx)) == ref_idx,
{
}

/// A candidate predicts from one reference that can be used: one outside the
/// window, the first frame of the window, or a frame with a reconstruction.
pub open spec fn candidate_usable(direction: u8, ref_idx: int, d: TplData, valid: Seq<u8>) -> bool {
    &&& direction <= 1
    &&& !(d.ref_tpl_group_idx[direction as int][ref_idx] > 0
        && valid[d.ref_tpl_group_idx[direction as int][ref_idx] as int] == 0)
}

/// The reference of a motion-search candidate, if it can be used.
pub fn tpl_candidate_ref(
    direction: u8,
    ref_idx_l0: u8,
    ref_idx_l1: u8,
    tpl_data: &TplData,
    base_tpl_valid_pic: &[u8],
) -> (r: Option<TplRef>)
    requires
        ref_idx_l0 < 8,
        ref_idx_l1 < 8,
        forall|l: int, i: int|
            0 <= l < 2 && 0 <= i < 8 ==> (#[trigger] tpl_data.ref_tpl_group_idx[l][i]) < base_tpl_valid_pic@.len(),
    ensures
        ({
            let ref_idx = if direction == 0 {
                ref_idx_l0 as int
            } else {
                ref_idx_l1 as int
            };
            &&& r is Some <==> candidate_usable(direction, ref_idx, *tpl_data, base_tpl_valid_pic@)
            &&& r is Some ==> r->0.list == direction && r->0.ref_idx == ref_idx && r->0.rf_idx == rf_position(
                direction as int,
                ref_idx,
            )
        }),
{
    if direction > 1 {
        return None;
    }
    let list: usize = direction as usize;
    let ref_idx: usize = if list == 0 {
        ref_idx_l0 as usize
    } else {
        ref_idx_l1 as usize
    };
    let group: i32 = tpl_data.ref_tpl_group_idx[list][ref_idx];
    if group > 0 {
        if base_tpl_valid_pic[group as usize] == 0 {
            return None;
        }
    }
    let rf_idx: i32 = if list == 0 {
        ref_idx as i32
    } else {
        4 + ref_idx as i32
    };
    Some(TplRef { list, ref_idx, rf_idx })
}

/// A whole-sample displacement kept within the padding of the reference: not
/// before it, then not beyond it.
pub open spec fn padded(mv: int, pos: int, size: int, extent: int) -> int {
    min_int(max_int(mv, -32 - pos), 31 + extent - pos - size)
}

fn clamp_axis(mv: i16, pos: u32, size: u32, extent: u32) -> (r: i16)
    requires
        pos <= 4 * MI_LIMIT,
        size <= 64,
        extent <= 4 * MI_LIMIT,
    ensures
        r == wrap_i16(8 * padded(mv as int, pos as int, size as int, extent as int)),
{
    let lo: i32 = -32 - pos as i32;
    let hi: i32 = 31 + extent as i32 - pos as i32 - size as i32;
    let mut v: i32 = mv as i32;
    if v < lo {
        v = lo;
    }
    if v > hi {
        v = hi;
    }
    low_i16(8 * v)
}

/// The start vector of a block, in eighths of a sample, from a whole-sample
/// search result.
pub fn tpl_start_mv(mv: Mv, block: TplBlock, max_width: u32, max_height: u32) -> (r: Mv)
    requires
        block.x <= 4 * MI_LIMIT,
        block.y <= 4 * MI_LIMIT,
        block.size <= 64,
        max_width <= 4 * MI_LIMIT,
        max_height <= 4 * MI_LIMIT,
    ensures
        r.x == wrap_i16(8 * padded(mv.x as int, block.x as int, block.size as int, max_width as int)),
        r.y == wrap_i16(8 * padded(mv.y as int, block.y as int, block.size as int, max_height as int)),
{
    Mv {
        x: clamp_axis(mv.x, block.x, block.size, max_width),
        y: clamp_axis(mv.y, block.y, block.size, max_height),
    }
}

/// A displaced block stays within 32 samples of the reference, wherever it
/// starts inside it.
pub proof fn displaced_blocks_stay_in_the_padding(mv: int, pos: int, size: int, extent: int)
    requires
        0 <= size,
        size <= extent + 63,
    ensures
        -32 <= pos + padded(mv, pos, size, extent),
        pos + padded(mv, pos, size, extent) + size <= extent + 31,
{
}

/// A vector points between samples.
pub open spec fn fractional(mv: Mv) -> bool {
    mv.x as int % 8 != 0 || mv.y as int % 8 != 0
}

/// Whether a vector needs interpolation.
pub fn tpl_needs_interpolation(mv: Mv) -> (r: bool)
    ensures
        r == fractional(mv),
{
    proof {
        vstd::arithmetic::power2::lemma2_to64();
    }
    crate::arith::shr_i32(mv.x as i32, 3) * 8 != mv.x as i32 || crate::arith::shr_i32(mv.y as i32, 3) * 8
        != mv.y as i32
}

/// Position a whole-sample prediction is read from.
pub open spec fn predictor_at(origin: int, stride: int, x: int, y: int, mv: Mv) -> int {
    origin + x + mv.x as int / 8 + (y + mv.y as int / 8) * stride
}

/// Position a whole-sample prediction is read from.
pub fn tpl_predictor_position(origin: i32, stride: i32, x: u32, y: u32, mv: Mv) -> (r: usize)
    requires
        0 <= origin <= 0x1fff_ffff,
        x <= 4 * MI_LIMIT,
        y <= 4 * MI_LIMIT,
        0 <= stride,
        -0x1fff_ffff <= (y + mv.y as int / 8) * stride <= 0x1fff_ffff,
        predictor_at(origin as int, stride as int, x as int, y as int, mv) >= 0,
    ensures
        r == predictor_at(origin as int, stride as int, x as int, y as int, mv),
{
    proof {
        vstd::arithmetic::power2::lemma2_to64();
    }
    let dx: i32 = crate::arith::shr_i32(mv.x as i32, 3);
    let dy: i32 = crate::arith::shr_i32(mv.y as i32, 3);
    (origin + x as i32 + dx + (y as i32 + dy) * stride) as usize
}

/// An inter candidate and its cost.
#[derive(Debug, Clone, Copy, PartialEq, Eq, Structural)]
pub struct InterOffer {
    pub cost: i64,
    pub rf_idx: i32,
    pub ref_poc: u64,
    pub mv: Mv,
}

/// What a block is predicted from in the search on the source.
#[derive(Debug, Clone, Copy, PartialEq, Eq, Structural)]
pub struct SourceChoice {
    /// The intra mode, or [`NEWMV`].
    pub best_mode: u8,
    pub best_intra_mode: u8,
    pub best_rf_idx: i32,
    pub ref_poc: u64,
    pub mv: Mv,
}

/// `i` is the first of the cheapest entries; -1 stands for none below the
/// largest cost there is.
pub open spec fn first_cheapest(costs: Seq<i64>, i: int) -> bool {
    if i == -1 {
        forall|k: int| 0 <= k < costs.len() ==> #[trigger] costs[k] == i64::MAX
    } else {
        &&& 0 <= i < costs.len()
        &&& costs[i] < i64::MAX
        &&& forall|k: int| 0 <= k < i ==> costs[i] < #[trigger] costs[k]
        &&& forall|k: int| i <= k < costs.len() ==> costs[i] <= #[trigger] costs[k]
    }
}

/// Costs of the inter candidates.
pub open spec fn offer_costs(inter: Seq<InterOffer>) -> Seq<i64> {
    Seq::new(inter.len(), |i: int| inter[i].cost)
}

/// Cost of entry `i`, or the largest there is.
pub open spec fn cost_at(costs: Seq<i64>, i: int) -> i64 {
    if i == -1 {
        i64::MAX
    } else {
        costs[i]
    }
}

/// The choice between intra modes, in order from the flat one, and inter
/// candidates: the first cheapest of each kind, and inter only where it is
/// strictly cheaper.
pub open spec fn is_choice(r: SourceChoice, intra: Seq<i64>, inter: Seq<InterOffer>, i: int, j: int) -> bool {
    &&& first_cheapest(intra, i)
    &&& first_cheapest(offer_costs(inter), j)
    &&& r.best_intra_mode == (if i == -1 {
        DC_PRED as int
    } else {
        i
    })
    &&& r.best_mode == (if cost_at(offer_costs(inter), j) < cost_at(intra, i) {
        NEWMV
    } else {
        r.best_intra_mode
    })
    &&& r.best_rf_idx == (if j == -1 {
        -1
    } else {
        inter[j].rf_idx as int
    })
    &&& r.ref_poc == (if j == -1 {
        0
    } else {
        inter[j].ref_poc
    })
    &&& r.mv == (if j == -1 {
        Mv { x: 0, y: 0 }
    } else {
        inter[j].mv
    })
}

/// Chooses what a block is predicted from.
pub fn tpl_choose_source(intra: &[i64], inter: &[InterOffer]) -> (r: SourceChoice)
    requires
        intra@.len() <= 13,
    ensures
        exists|i: int, j: int| #[trigger] is_choice(r, intra@, inter@, i, j),
{
    let mut best_intra_cost: i64 = i64::MAX;
    let mut best_intra_mode: u8 = DC_PRED;
    let ghost mut i: int = -1;
    let mut k: usize = 0;
    while k < intra.len()
        invariant
            k <= intra@.len() <= 13,
            -1 <= i < k,
            first_cheapest(intra@.take(k as int), i),
            best_intra_cost == cost_at(intra@, i),
            best_intra_mode == (if i == -1 {
                DC_PRED as int
            } else {
                i
            }),
        decreases intra@.len() - k,
    {
        let ghost before = intra@.take(k as int);
        let ghost after = intra@.take(k + 1);
        assert(forall|n: int| 0 <= n < k ==> #[trigger] after[n] == before[n]);
        assert(forall|n: int| 0 <= n < k ==> #[trigger] before[n] == after[n]);
        if intra[k] < best_intra_cost {
            best_intra_cost = intra[k];
            best_intra_mode = k as u8;
            proof {
                i = k as int;
            }
        }
        assert(first_cheapest(after, i)) by {
            assert(after[k as int] == intra@[k as int]);
        }
        k = k + 1;
    }
    assert(intra@.take(k as int) =~= intra@);
    let mut best_inter_cost: i64 = i64::MAX;
    let mut best: InterOffer = InterOffer { cost: i64::MAX, rf_idx: -1, ref_poc: 0, mv: Mv { x: 0, y: 0 } };
    let ghost mut j: int = -1;
    let ghost costs = offer_costs(inter@);
    let mut l: usize = 0;
    while l < inter.len()
        invariant
            l <= inter@.len(),
            -1 <= j < l,
            costs == offer_costs(inter@),
            first_cheapest(costs.take(l as int), j),
            best_inter_cost == cost_at(costs, j),
            j == -1 ==> best.rf_idx == -1 && best.ref_poc == 0 && best.mv == (Mv { x: 0, y: 0 }),
            j != -1 ==> best == inter@[j],
        decreases inter@.len() - l,
    {
        let ghost before = costs.take(l as int);
        let ghost after = costs.take(l + 1);
        assert(forall|n: int| 0 <= n < l ==> #[trigger] after[n] == before[n]);
        assert(forall|n: int| 0 <= n < l ==> #[trigger] before[n] == after[n]);
        let offer: InterOffer = inter[l];
        assert(costs[l as int] == offer.cost);
        if offer.cost < best_inter_cost {
            best_inter_cost = offer.cost;
            best = offer;
            proof {
                j = l as int;
            }
        }
        assert(first_cheapest(after, j)) by {
            assert(after[l as int] == costs[l as int]);
        }
        l = l + 1;
    }
    assert(costs.take(l as int) =~= costs);
    let r: SourceChoice = SourceChoice {
        best_mode: if best_inter_cost < best_intra_cost {
            NEWMV
        } else {
            best_intra_mode
        },
        best_intra_mode,
        best_rf_idx: best.rf_idx,
        ref_poc: best.ref_poc,
        mv: best.mv,
    };
    assert(is_choice(r, intra@, inter@, i, j));
    r
}

/// The costs decide a choice completely.
pub proof fn choices_are_determined(a: SourceChoice, b: SourceChoice, intra: Seq<i64>, inter: Seq<InterOffer>)
    requires
        exists|i: int, j: int| #[trigger] is_choice(a, intra, inter, i, j),
        exists|i: int, j: int| #[trigger] is_choice(b, intra, inter, i, j),
    ensures
        a == b,
{
    let (i, j) = choose|i: int, j: int| #[trigger] is_choice(a, intra, inter, i, j);
    let (k, l) = choose|i: int, j: int| #[trigger] is_choice(b, intra, inter, i, j);
    lemma_one_cheapest(intra, i, k);
    lemma_one_cheapest(offer_costs(inter), j, l);
}

proof fn lemma_one_cheapest(costs: Seq<i64>, i: int, k: int)
    requires
        first_cheapest(costs, i),
        first_cheapest(costs, k),
    ensures
        i == k,
{
    if i != -1 && k != -1 {
        let a = costs[i];
        let b = costs[k];
    } else if i != -1 {
        assert(costs[i] == i64::MAX);
    } else if k != -1 {
        assert(costs[k] == i64::MAX);
    }
}

/// A distortion or rate in the fixed-point scale of the statistics, with the
/// rows that were left out made up for.
pub open spec fn stat_scale(x: int, subsample_tx: int) -> int {
    if subsample_tx == 2 {
        64 * x
    } else if subsample_tx == 1 {
        32 * x
    } else {
        16 * x
    }
}

/// Brings a distortion or rate to the scale of the statistics.
pub fn tpl_stat(x: i64, subsample_tx: u8) -> (r: i64)
    requires
        -0x1ff_ffff_ffff_ffff <= x <= 0x1ff_ffff_ffff_ffff,
        subsample_tx <= 2,
    ensures
        r == stat_scale(x as int, subsample_tx as int),
{
    if subsample_tx == 2 {
        64 * x
    } else if subsample_tx == 1 {
        32 * x
    } else {
        16 * x
    }
}

/// The statistics a block leaves: those of the reconstruction, not below
/// those of the source. An intra block has no source statistics of its own.
pub open spec fn block_stats(
    choice: SourceChoice,
    src_dist: int,
    src_rate: int,
    rec_dist: int,
    rec_rate: int,
    slice: SliceType,
) -> TplStats {
    let inter = choice.best_mode == NEWMV;
    let sd = if inter {
        src_dist
    } else {
        rec_dist
    };
    let sr = if inter {
        src_rate
    } else {
        rec_rate
    };
    let moves = !(slice is I) && choice.best_rf_idx != -1;
    TplStats {
        srcrf_dist: sd as i64,
        recrf_dist: max_int(sd, rec_dist) as i64,
        srcrf_rate: sr as i64,
        recrf_rate: max_int(sr, rec_rate) as i64,
        mc_dep_rate: 0,
        mc_dep_dist: 0,
        mv: if moves {
            choice.mv
        } else {
            Mv { x: 0, y: 0 }
        },
        ref_frame_poc: if moves {
            choice.ref_poc
        } else {
            0
        },
    }
}

/// The statistics a block leaves.
pub fn tpl_block_stats(
    choice: &SourceChoice,
    src_dist: i64,
    src_rate: i64,
    recon_error: i64,
    rate_cost: i64,
    subsample_tx: u8,
    tpl_slice_type: SliceType,
) -> (r: TplStats)
    requires
        -0x1ff_ffff_ffff_ffff <= recon_error <= 0x1ff_ffff_ffff_ffff,
        -0x1ff_ffff_ffff_ffff <= rate_cost <= 0x1ff_ffff_ffff_ffff,
        subsample_tx <= 2,
    ensures
        r == block_stats(
            *choice,
            src_dist as int,
            src_rate as int,
            stat_scale(recon_error as int, subsample_tx as int),
            stat_scale(rate_cost as int, subsample_tx as int),
            tpl_slice_type,
        ),
{
    let rec_dist: i64 = tpl_stat(recon_error, subsample_tx);
    let rec_rate: i64 = tpl_stat(rate_cost, subsample_tx);
    let inter: bool = choice.best_mode == NEWMV;
    let (sd, sr): (i64, i64) = if inter {
        (src_dist, src_rate)
    } else {
        (rec_dist, rec_rate)
    };
    let moves: bool = tpl_slice_type != SliceType::I && choice.best_rf_idx != -1;
    TplStats {
        srcrf_dist: sd,
        recrf_dist: if sd >= rec_dist {
            sd
        } else {
            rec_dist
        },
        srcrf_rate: sr,
        recrf_rate: if sr >= rec_rate {
            sr
        } else {
            rec_rate
        },
        mc_dep_rate: 0,
        mc_dep_dist: 0,
        mv: if moves {
            choice.mv
        } else {
            Mv { x: 0, y: 0 }
        },
        ref_frame_poc: if moves {
            choice.ref_poc
        } else {
            0
        },
    }
}

/// Predicting from a reconstruction never counts as better than predicting
/// from the source, and for an intra block the two are the same.
pub proof fn reconstruction_never_beats_the_source(
    choice: SourceChoice,
    src_dist: i64,
    src_rate: i64,
    rec_dist: i64,
    rec_rate: i64,
    slice: SliceType,
)
    ensures
        ({
            let st = block_stats(choice, src_dist as int, src_rate as int, rec_dist as int, rec_rate as int, slice);
            &&& st.srcrf_dist <= st.recrf_dist
            &&& st.srcrf_rate <= st.recrf_rate
            &&& choice.best_mode != NEWMV ==> st.srcrf_dist == st.recrf_dist && st.srcrf_rate == st.recrf_rate
        }),
{
}

/// Keeps the outcome of the search on the source for another pass.
pub fn tpl_keep_source(choice: &SourceChoice, src_dist: i64, src_rate: i64) -> (r: TplSrcStats)
    ensures
        r.srcrf_dist == src_dist,
        r.srcrf_rate == src_rate,
        r.best_mode == choice.best_mode,
        r.best_intra_mode == choice.best_intra_mode,
        r.best_rf_idx == choice.best_rf_idx,
        r.ref_frame_poc == choice.ref_poc,
        r.mv == choice.mv,
{
    TplSrcStats {
        srcrf_dist: src_dist,
        srcrf_rate: src_rate,
        ref_frame_poc: choice.ref_poc,
        mv: choice.mv,
        best_mode: choice.best_mode,
        best_rf_idx: choice.best_rf_idx,
        best_intra_mode: choice.best_intra_mode,
    }
}

/// Takes up the outcome of an earlier search on the source.
pub fn tpl_recall_source(s: &TplSrcStats) -> (r: SourceChoice)
    ensures
        r.best_mode == s.best_mode,
        r.best_intra_mode == s.best_intra_mode,
        r.best_rf_idx == s.best_rf_idx,
        r.ref_poc == s.ref_frame_poc,
        r.mv == s.mv,
{
    SourceChoice {
        best_mode: s.best_mode,
        best_intra_mode: s.best_intra_mode,
        best_rf_idx: s.best_rf_idx,
        ref_poc: s.ref_frame_poc,
        mv: s.mv,
    }
}

/// What a block is reconstructed from.
#[derive(Debug, Clone, Copy, PartialEq, Eq, Structural)]
pub enum RecSource {
    /// Its own neighbours.
    Intra,
    /// The reconstruction of a frame of the window.
    Window(usize),
    /// A reference picture outside the window.
    Picture(usize),
}

/// `j` is the first frame of the window with the given number.
pub open spec fn frame_with(pocs: Seq<u64>, poc: u64, j: int) -> bool {
    &&& 0 <= j < pocs.len()
    &&& pocs[j] == poc
    &&& forall|k: int| 0 <= k < j ==> #[trigger] pocs[k] != poc
}

/// What a block is reconstructed from: an inter block from the frame of the
/// window its reference is, or from the reference picture itself.
pub fn tpl_recon_source(choice: &SourceChoice, tpl_data: &TplData, poc_map_idx: &[u64]) -> (r: RecSource)
    requires
        choice.best_mode == NEWMV ==> {
            &&& 0 <= choice.best_rf_idx < 12
            &&& rf_in_list(choice.best_rf_idx as int) < 8
            &&& tpl_data.ref_in_slide_window[rf_list(choice.best_rf_idx as int)][rf_in_list(
                choice.best_rf_idx as int,
            )] ==> exists|j: int| 0 <= j < MAX_TPL_LA_SW && frame_with(poc_map_idx@, choice.ref_poc, j)
        },
    ensures
        choice.best_mode != NEWMV <==> r is Intra,
        choice.best_mode == NEWMV ==> {
            let l = rf_list(choice.best_rf_idx as int);
            let i = rf_in_list(choice.best_rf_idx as int);
            if tpl_data.ref_in_slide_window[l][i] {
                r matches RecSource::Window(j) && frame_with(poc_map_idx@, choice.ref_poc, j as int)
            } else {
                r == RecSource::Picture(tpl_data.tpl_ref_ds[l][i].pic_index)
            }
        },
{
    if choice.best_mode != NEWMV {
        return RecSource::Intra;
    }
    let (list, ref_idx): (usize, usize) = if choice.best_rf_idx < 4 {
        (0, choice.best_rf_idx as usize)
    } else {
        (1, (choice.best_rf_idx - 4) as usize)
    };
    if tpl_data.ref_in_slide_window[list][ref_idx] {
        let ghost found = choose|j: int|
            0 <= j < MAX_TPL_LA_SW && frame_with(poc_map_idx@, choice.ref_poc, j);
        let mut j: usize = 0;
        while poc_map_idx[j] != choice.ref_poc
            invariant
                frame_with(poc_map_idx@, choice.ref_poc, found),
                0 <= j <= found < poc_map_idx@.len(),
                forall|k: int| 0 <= k < j ==> #[trigger] poc_map_idx@[k] != choice.ref_poc,
            decreases found - j,
        {
            j = j + 1;
        }
        RecSource::Window(j)
    } else {
        RecSource::Picture(tpl_data.tpl_ref_ds[list][ref_idx].pic_index)
    }
}

/// Whether the residual of a block is added to its reconstruction: where the
/// frame may be referred to, and anything is left of the residual.
pub fn tpl_adds_residual(disable_intra_pred: bool, is_ref: bool, eob: u16) -> (r: bool)
    ensures
        r == ((!disable_intra_pred || is_ref) && eob != 0),
{
    (!disable_intra_pred || is_ref) && eob != 0
}

/// Sample `(r, c)` of a block.
pub open spec fn at(origin: int, stride: int, r: int, c: int) -> int {
    origin + r * stride + c
}

/// `new` is `old_buf` but for a block, in which sample `(r, c)` is
/// `want(r, c)`.
pub open spec fn block_written(
    old_buf: Seq<u8>,
    new: Seq<u8>,
    origin: int,
    stride: int,
    size: int,
    want: spec_fn(int, int) -> u8,
) -> bool {
    &&& new.len() == old_buf.len()
    &&& forall|r: int, c: int|
        0 <= r < size && 0 <= c < size ==> new[#[trigger] at(origin, stride, r, c)] == want(r, c)
    &&& forall|i: int|
        0 <= i < old_buf.len() && !covered(i, origin, stride, size) ==> #[trigger] new[i] == old_buf[i]
}

/// The sample belongs to the block.
pub open spec fn covered(i: int, origin: int, stride: int, size: int) -> bool {
    exists|r: int, c: int| 0 <= r < size && 0 <= c < size && i == #[trigger] at(origin, stride, r, c)
}

/// Samples of a prediction.
pub open spec fn samples_of(src: Seq<u8>, origin: int, stride: int) -> spec_fn(int, int) -> u8 {
    |r: int, c: int| src[at(origin, stride, r, c)]
}

proof fn lemma_at(origin: int, stride: int, size: int, r: int, c: int, len: int)
    requires
        0 <= origin,
        0 <= stride,
        0 <= r < size,
        0 <= c < size,
        origin + (size - 1) * stride + size <= len,
    ensures
        0 <= at(origin, stride, r, c) < len,
        0 <= r * stride <= origin + r * stride <= at(origin, stride, r, c),
{
    lemma_mul_inequality(r, size - 1, stride);
    lemma_mul_nonnegative(r, stride);
}

proof fn lemma_distinct(origin: int, stride: int, size: int, r: int, c: int, r2: int, c2: int)
    requires
        size <= stride,
        0 <= c < size,
        0 <= c2 < size,
        at(origin, stride, r, c) == at(origin, stride, r2, c2),
    ensures
        r == r2,
        c == c2,
{
    if r < r2 {
        lemma_mul_inequality(1, r2 - r, stride);
        lemma_mul_is_distributive_add_other_way(stride, r2 - r, r);
    } else if r2 < r {
        lemma_mul_inequality(1, r - r2, stride);
        lemma_mul_is_distributive_add_other_way(stride, r - r2, r2);
    }
}

/// Copies a whole-sample prediction into the reconstruction.
pub fn tpl_copy_block(
    src: &[u8],
    src_origin: usize,
    src_stride: usize,
    dst: &mut [u8],
    dst_origin: usize,
    dst_stride: usize,
    size: usize,
)
    requires
        size > 0,
        size <= dst_stride,
        src_origin + (size - 1) * src_stride + size <= src@.len(),
        dst_origin + (size - 1) * dst_stride + size <= old(dst)@.len(),
    ensures
        block_written(
            old(dst)@,
            final(dst)@,
            dst_origin as int,
            dst_stride as int,
            size as int,
            samples_of(src@, src_origin as int, src_stride as int),
        ),
{
    let ghost d0 = dst@;
    let slen: usize = src.len();
    let dlen: usize = dst.len();
    let mut r: usize = 0;
    while r < size
        invariant
            r <= size,
            size <= dst_stride,
            slen == src@.len(),
            dlen == d0.len(),
            dst@.len() == dlen,
            src_origin + (size - 1) * src_stride + size <= slen,
            dst_origin + (size - 1) * dst_stride + size <= dlen,
            forall|y: int, x: int|
                0 <= y < r && 0 <= x < size ==> dst@[#[trigger] at(dst_origin as int, dst_stride as int, y, x)]
                    == src@[at(src_origin as int, src_stride as int, y, x)],
            forall|i: int|
                0 <= i < d0.len() && !covered(i, dst_origin as int, dst_stride as int, size as int)
                    ==> #[trigger] dst@[i] == d0[i],
        decreases size - r,
    {
        let mut c: usize = 0;
        while c < size
            invariant
                r < size,
                c <= size,
                size <= dst_stride,
                slen == src@.len(),
                dlen == d0.len(),
                dst@.len() == dlen,
                src_origin + (size - 1) * src_stride + size <= slen,
                dst_origin + (size - 1) * dst_stride + size <= dlen,
                forall|y: int, x: int|
                    0 <= x < size && (0 <= y < r || (y == r && x < c)) ==> dst@[#[trigger] at(
                        dst_origin as int,
                        dst_stride as int,
                        y,
                        x,
                    )] == src@[at(src_origin as int, src_stride as int, y, x)],
                forall|i: int|
                    0 <= i < d0.len() && !covered(i, dst_origin as int, dst_stride as int, size as int)
                        ==> #[trigger] dst@[i] == d0[i],
            decreases size - c,
        {
            proof {
                lemma_at(src_origin as int, src_stride as int, size as int, r as int, c as int, slen as int);
                lemma_at(dst_origin as int, dst_stride as int, size as int, r as int, c as int, dlen as int);
            }
            let ghost before = dst@;
            let to: usize = dst_origin + r * dst_stride + c;
            dst[to] = src[src_origin + r * src_stride + c];
            proof {
                assert(to == at(dst_origin as int, dst_stride as int, r as int, c as int));
                assert forall|y: int, x: int| 0 <= x < size && (0 <= y < r || (y == r && x < c + 1)) implies dst@[
                #[trigger] at(dst_origin as int, dst_stride as int, y, x)] == src@[at(
                    src_origin as int,
                    src_stride as int,
                    y,
                    x,
                )] by {
                    lemma_at(dst_origin as int, dst_stride as int, size as int, y, x, dlen as int);
                    if at(dst_origin as int, dst_stride as int, y, x) == to {
                        lemma_distinct(
                            dst_origin as int,
                            dst_stride as int,
                            size as int,
                            y,
                            x,
                            r as int,
                            c as int,
                        );
                    }
                }
            }
            c = c + 1;
        }
        r = r + 1;
    }
}

/// Which neighbours of a 16x16 block are smoothed before a directional
/// prediction.
#[derive(Debug, Clone, Copy, PartialEq, Eq, Structural)]
pub struct EdgePlan {
    /// The corner is smoothed with its two neighbours.
    pub corner: bool,
    /// Neighbours above to smooth, the corner among them; zero for none.
    pub above: usize,
    /// Neighbours to the left to smooth, the corner among them; zero for none.
    pub left: usize,
}

/// Neighbours of one side inside the frame, which is counted in whole blocks.
pub open spec fn edge_len(behind: u32, frame: int, pos: int) -> int {
    if behind > 0 {
        min_int(16, 16 * ((frame + 15) / 16) - pos + 16)
    } else {
        0
    }
}

/// Which neighbours of a 16x16 block to smooth for a direction in degrees.
pub open spec fn edge_plan(p_angle: int, frame_width: int, frame_height: int, x: u32, y: u32) -> EdgePlan {
    let slanted = p_angle != 90 && p_angle != 180;
    let top = edge_len(y, frame_width, x as int);
    let left = edge_len(x, frame_height, y as int);
    EdgePlan {
        corner: 90 < p_angle < 180,
        above: (if slanted && p_angle < 180 && top > 0 {
            top + 1 + if p_angle < 90 {
                16int
            } else {
                0
            }
        } else {
            0
        }) as usize,
        left: (if slanted && p_angle > 90 && left > 0 {
            left + 1 + if p_angle > 180 {
                16int
            } else {
                0
            }
        } else {
            0
        }) as usize,
    }
}

/// Decides which neighbours of a 16x16 block to smooth for a direction in
/// degrees.
pub fn tpl_filter_intra_edge(
    p_angle: i32,
    max_frame_width: u32,
    max_frame_height: u32,
    cu_origin_x: u32,
    cu_origin_y: u32,
) -> (r: EdgePlan)
    requires
        max_frame_width <= 4 * MI_LIMIT,
        max_frame_height <= 4 * MI_LIMIT,
        cu_origin_x <= 4 * MI_LIMIT,
        cu_origin_y <= 4 * MI_LIMIT,
    ensures
        r == edge_plan(
            p_angle as int,
            max_frame_width as int,
            max_frame_height as int,
            cu_origin_x,
            cu_origin_y,
        ),
{
    let need_above: bool = p_angle < 180;
    let need_left: bool = p_angle > 90;
    let top: i32 = if cu_origin_y > 0 {
        let room: i32 = 16 * ((max_frame_width + 15) / 16) as i32 - cu_origin_x as i32 + 16;
        if room < 16 {
            room
        } else {
            16
        }
    } else {
        0
    };
    let left: i32 = if cu_origin_x > 0 {
        let room: i32 = 16 * ((max_frame_height + 15) / 16) as i32 - cu_origin_y as i32 + 16;
        if room < 16 {
            room
        } else {
            16
        }
    } else {
        0
    };
    let slanted: bool = p_angle != 90 && p_angle != 180;
    EdgePlan {
        corner: slanted && need_above && need_left,
        above: if slanted && need_above && top > 0 {
            top as usize + 1 + if p_angle < 90 {
                16
            } else {
                0
            }
        } else {
            0
        },
        left: if slanted && need_left && left > 0 {
            left as usize + 1 + if p_angle > 180 {
                16
            } else {
                0
            }
        } else {
            0
        },
    }
}

/// What an intra prediction of a block reads.
#[derive(Debug, Clone, Copy, PartialEq, Eq, Structural)]
pub struct IntraPlan {
    /// How the neighbours are smoothed first; directions only.
    pub edges: Option<EdgePlan>,
    /// Neighbours per side, the ones beyond the block among them.
    pub reach: usize,
    pub has_left: bool,
    pub has_above: bool,
}

/// What the prediction of a block in a mode reads, with a direction in
/// degrees where the mode has one.
pub fn tpl_predict_intra(
    mode: u8,
    p_angle: i32,
    max_frame_width: u32,
    max_frame_height: u32,
    mb_origin_x: u32,
    mb_origin_y: u32,
    size: usize,
) -> (r: IntraPlan)
    requires
        mode <= 12,
        max_frame_width <= 4 * MI_LIMIT,
        max_frame_height <= 4 * MI_LIMIT,
        mb_origin_x <= 4 * MI_LIMIT,
        mb_origin_y <= 4 * MI_LIMIT,
        size <= 64,
    ensures
        r.edges is Some <==> 1 <= mode <= 8,
        r.edges is Some ==> r.edges->0 == edge_plan(
            p_angle as int,
            max_frame_width as int,
            max_frame_height as int,
            mb_origin_x,
            mb_origin_y,
        ),
        r.reach == 2 * size,
        r.has_left == (mb_origin_x > 0),
        r.has_above == (mb_origin_y > 0),
{
    let edges: Option<EdgePlan> = if is_directional_mode(mode) {
        Some(tpl_filter_intra_edge(p_angle, max_frame_width, max_frame_height, mb_origin_x, mb_origin_y))
    } else {
        None
    };
    IntraPlan { edges, reach: 2 * size, has_left: mb_origin_x > 0, has_above: mb_origin_y > 0 }
}

} // verus!
