//! The temporal-dependency model of the look-ahead: what each block of a
//! frame costs, and what the frames that refer to it save.

use vstd::prelude::*;

use crate::rd_cost::rd;
use crate::types::{Mv, SliceType};

pub mod choices;
pub mod context;
pub mod dependence;
pub mod dispenser;
pub mod flow;
pub mod kernels;
pub mod laws;
pub mod model;
pub mod neighbours;
pub mod refs;
pub mod samples;
pub mod search;
pub mod superblock;

verus! {

/// Largest block side of the search buffers.
pub const MAX_TPL_SIZE: usize = 32;

/// Samples of the largest block.
pub const MAX_TPL_SAMPLES_PER_BLOCK: usize = 1024;

/// Divisor of the rate multiplier.
pub const TPL_RDMULT_SCALING_FACTOR: i32 = 6;

/// How far a vector may point outside the picture.
pub const TPL_PAD: i32 = 32;

/// References per list.
pub const REF_LIST_MAX_DEPTH: usize = 8;

/// Frames of the look-ahead window.
pub const MAX_TPL_LA_SW: usize = 512;

/// The flat intra mode, as block statistics record it.
pub const DC_PRED: u8 = 0;

/// The new-vector inter mode, as block statistics record it.
pub const NEWMV: u8 = 16;

/// For each block of a search level: its position among the coding units, and
/// its position among the motion-search results.
pub const TPL_BLK_IDX_TAB: [[u8; 21]; 2] = [
    [0, 1, 22, 43, 64, 2, 7, 12, 17, 23, 28, 33, 38, 44, 49, 54, 59, 65, 70, 75, 80],
    [0, 1, 2, 3, 4, 5, 6, 9, 10, 7, 8, 11, 12, 13, 14, 17, 18, 15, 16, 19, 20],
];

/// Block side of each search level.
pub const SIZE_ARRAY: [u32; 3] = [16, 32, 64];

/// First block of each search level.
pub const BLK_START_ARRAY: [u8; 3] = [5, 1, 0];

/// Last block of each search level.
pub const BLK_END_ARRAY: [u8; 3] = [20, 4, 0];

/// Transform size of each search level: square.
pub const TX_SIZE_ARRAY: [usize; 3] = [2, 3, 4];

/// Transform size of each search level with every other row left out.
pub const SUB2_TX_SIZE_ARRAY: [usize; 3] = [8, 10, 12];

/// Transform size of each search level with three of four rows left out.
pub const SUB4_TX_SIZE_ARRAY: [usize; 3] = [14, 16, 18];

/// One coding unit of a 64x64 block.
#[derive(Debug, Clone, Copy, PartialEq, Eq, Structural)]
pub struct CodedBlockStats {
    pub depth: u8,
    pub size: u8,
    pub size_log2: u8,
    pub org_x: u8,
    pub org_y: u8,
    pub cu_num_in_depth: u8,
    pub parent32x32_index: u8,
}

/// The coding units of a 64x64 block, depth first. Each row holds the fields
/// of a [`CodedBlockStats`] in order.
pub const CODED_UNIT_STATS: [[u8; 7]; 85] = [
    [0, 64, 6, 0, 0, 0, 0], [1, 32, 5, 0, 0, 0, 1],
    [2, 16, 4, 0, 0, 0, 1], [3, 8, 3, 0, 0, 0, 1],
    [3, 8, 3, 8, 0, 1, 1], [3, 8, 3, 0, 8, 8, 1],
    [3, 8, 3, 8, 8, 9, 1], [2, 16, 4, 16, 0, 1, 1],
    [3, 8, 3, 16, 0, 2, 1], [3, 8, 3, 24, 0, 3, 1],
    [3, 8, 3, 16, 8, 10, 1], [3, 8, 3, 24, 8, 11, 1],
    [2, 16, 4, 0, 16, 4, 1], [3, 8, 3, 0, 16, 16, 1],
    [3, 8, 3, 8, 16, 17, 1], [3, 8, 3, 0, 24, 24, 1],
    [3, 8, 3, 8, 24, 25, 1], [2, 16, 4, 16, 16, 5, 1],
    [3, 8, 3, 16, 16, 18, 1], [3, 8, 3, 24, 16, 19, 1],
    [3, 8, 3, 16, 24, 26, 1], [3, 8, 3, 24, 24, 27, 1],
    [1, 32, 5, 32, 0, 1, 2], [2, 16, 4, 32, 0, 2, 2],
    [3, 8, 3, 32, 0, 4, 2], [3, 8, 3, 40, 0, 5, 2],
    [3, 8, 3, 32, 8, 12, 2], [3, 8, 3, 40, 8, 13, 2],
    [2, 16, 4, 48, 0, 3, 2], [3, 8, 3, 48, 0, 6, 2],
    [3, 8, 3, 56, 0, 7, 2], [3, 8, 3, 48, 8, 14, 2],
    [3, 8, 3, 56, 8, 15, 2], [2, 16, 4, 32, 16, 6, 2],
    [3, 8, 3, 32, 16, 20, 2], [3, 8, 3, 40, 16, 21, 2],
    [3, 8, 3, 32, 24, 28, 2], [3, 8, 3, 40, 24, 29, 2],
    [2, 16, 4, 48, 16, 7, 2], [3, 8, 3, 48, 16, 22, 2],
    [3, 8, 3, 56, 16, 23, 2], [3, 8, 3, 48, 24, 30, 2],
    [3, 8, 3, 56, 24, 31, 2], [1, 32, 5, 0, 32, 2, 3],
    [2, 16, 4, 0, 32, 8, 3], [3, 8, 3, 0, 32, 32, 3],
    [3, 8, 3, 8, 32, 33, 3], [3, 8, 3, 0, 40, 40, 3],
    [3, 8, 3, 8, 40, 41, 3], [2, 16, 4, 16, 32, 9, 3],
    [3, 8, 3, 16, 32, 34, 3], [3, 8, 3, 24, 32, 35, 3],
    [3, 8, 3, 16, 40, 42, 3], [3, 8, 3, 24, 40, 43, 3],
    [2, 16, 4, 0, 48, 12, 3], [3, 8, 3, 0, 48, 48, 3],
    [3, 8, 3, 8, 48, 49, 3], [3, 8, 3, 0, 56, 56, 3],
    [3, 8, 3, 8, 56, 57, 3], [2, 16, 4, 16, 48, 13, 3],
    [3, 8, 3, 16, 48, 50, 3], [3, 8, 3, 24, 48, 51, 3],
    [3, 8, 3, 16, 56, 58, 3], [3, 8, 3, 24, 56, 59, 3],
    [1, 32, 5, 32, 32, 3, 4], [2, 16, 4, 32, 32, 10, 4],
    [3, 8, 3, 32, 32, 36, 4], [3, 8, 3, 40, 32, 37, 4],
    [3, 8, 3, 32, 40, 44, 4], [3, 8, 3, 40, 40, 45, 4],
    [2, 16, 4, 48, 32, 11, 4], [3, 8, 3, 48, 32, 38, 4],
    [3, 8, 3, 56, 32, 39, 4], [3, 8, 3, 48, 40, 46, 4],
    [3, 8, 3, 56, 40, 47, 4], [2, 16, 4, 32, 48, 14, 4],
    [3, 8, 3, 32, 48, 52, 4], [3, 8, 3, 40, 48, 53, 4],
    [3, 8, 3, 32, 56, 60, 4], [3, 8, 3, 40, 56, 61, 4],
    [2, 16, 4, 48, 48, 15, 4], [3, 8, 3, 48, 48, 54, 4],
    [3, 8, 3, 56, 48, 55, 4], [3, 8, 3, 48, 56, 62, 4],
    [3, 8, 3, 56, 56, 63, 4],
];

/// Coding unit `i` of a 64x64 block.
pub fn coded_block_stats(i: usize) -> (r: CodedBlockStats)
    requires
        i < 85,
    ensures
        r.depth == CODED_UNIT_STATS[i as int][0],
        r.size == CODED_UNIT_STATS[i as int][1],
        r.size_log2 == CODED_UNIT_STATS[i as int][2],
        r.org_x == CODED_UNIT_STATS[i as int][3],
        r.org_y == CODED_UNIT_STATS[i as int][4],
        r.cu_num_in_depth == CODED_UNIT_STATS[i as int][5],
        r.parent32x32_index == CODED_UNIT_STATS[i as int][6],
{
    let row: [u8; 7] = CODED_UNIT_STATS[i];
    CodedBlockStats {
        depth: row[0],
        size: row[1],
        size_log2: row[2],
        org_x: row[3],
        org_y: row[4],
        cu_num_in_depth: row[5],
        parent32x32_index: row[6],
    }
}

/// What the model knows of a block.
#[derive(Debug, Clone, Copy, PartialEq, Eq, Structural)]
pub struct TplStats {
    /// Distortion when predicted from the source of the reference.
    pub srcrf_dist: i64,
    /// Distortion when predicted from the reconstruction of the reference.
    pub recrf_dist: i64,
    pub srcrf_rate: i64,
    pub recrf_rate: i64,
    /// Rate that later frames owe to this block.
    pub mc_dep_rate: i64,
    /// Distortion that later frames owe to this block.
    pub mc_dep_dist: i64,
    pub mv: Mv,
    pub ref_frame_poc: u64,
}

/// The statistics of a block nothing is known of.
pub open spec fn empty_stats() -> TplStats {
    TplStats {
        srcrf_dist: 0,
        recrf_dist: 0,
        srcrf_rate: 0,
        recrf_rate: 0,
        mc_dep_rate: 0,
        mc_dep_dist: 0,
        mv: Mv { x: 0, y: 0 },
        ref_frame_poc: 0,
    }
}

impl Default for TplStats {
    fn default() -> (r: Self)
        ensures
            r == empty_stats(),
    {
        TplStats {
            srcrf_dist: 0,
            recrf_dist: 0,
            srcrf_rate: 0,
            recrf_rate: 0,
            mc_dep_rate: 0,
            mc_dep_dist: 0,
            mv: Mv { x: 0, y: 0 },
            ref_frame_poc: 0,
        }
    }
}

/// Outcome of the search on the source, kept for another pass.
#[derive(Debug, Clone, Copy, PartialEq, Eq, Structural)]
pub struct TplSrcStats {
    pub srcrf_dist: i64,
    pub srcrf_rate: i64,
    pub ref_frame_poc: u64,
    pub mv: Mv,
    /// An intra mode, or [`NEWMV`].
    pub best_mode: u8,
    /// Position of the winning reference, -1 where there is none.
    pub best_rf_idx: i32,
    pub best_intra_mode: u8,
}

impl Default for TplSrcStats {
    /// Nothing found yet.
    fn default() -> (r: Self)
        ensures
            r == (TplSrcStats {
                srcrf_dist: 0,
                srcrf_rate: 0,
                ref_frame_poc: 0,
                mv: Mv { x: 0, y: 0 },
                best_mode: 0,
                best_rf_idx: 0,
                best_intra_mode: 0,
            }),
    {
        TplSrcStats {
            srcrf_dist: 0,
            srcrf_rate: 0,
            ref_frame_poc: 0,
            mv: Mv { x: 0, y: 0 },
            best_mode: 0,
            best_rf_idx: 0,
            best_intra_mode: 0,
        }
    }
}

/// A reference as the model sees it.
#[derive(Debug, Clone, Copy, PartialEq, Eq, Structural)]
pub struct TplRefDs {
    pub picture_number: u64,
    /// Position in the caller's list of reference pictures.
    pub pic_index: usize,
}

impl Default for TplRefDs {
    fn default() -> (r: Self)
        ensures
            r == (TplRefDs { picture_number: 0, pic_index: 0 }),
    {
        TplRefDs { picture_number: 0, pic_index: 0 }
    }
}

/// The references of a frame.
#[derive(Debug, Clone, Copy)]
pub struct TplData {
    pub tpl_ref0_count: u8,
    pub tpl_ref1_count: u8,
    /// The reference is a frame of the window.
    pub ref_in_slide_window: [[bool; 8]; 2],
    /// Its position in the window, -1 outside.
    pub ref_tpl_group_idx: [[i32; 8]; 2],
    pub tpl_ref_ds: [[TplRefDs; 8]; 2],
    pub tpl_slice_type: SliceType,
    pub tpl_temporal_layer_index: u8,
    pub is_ref: bool,
    pub tpl_decode_order: i32,
}

/// No reference is recorded anywhere.
pub open spec fn no_refs(d: TplData) -> bool {
    &&& d.tpl_ref0_count == 0
    &&& d.tpl_ref1_count == 0
    &&& forall|l: int, i: int| 0 <= l < 2 && 0 <= i < 8 ==> !(#[trigger] d.ref_in_slide_window[l][i])
    &&& forall|l: int, i: int| 0 <= l < 2 && 0 <= i < 8 ==> #[trigger] d.ref_tpl_group_idx[l][i] == 0
    &&& forall|l: int, i: int|
        0 <= l < 2 && 0 <= i < 8 ==> #[trigger] d.tpl_ref_ds[l][i] == (TplRefDs {
            picture_number: 0,
            pic_index: 0,
        })
}

impl Default for TplData {
    fn default() -> (r: Self)
        ensures
            no_refs(r),
            r.tpl_slice_type == SliceType::B,
            r.tpl_temporal_layer_index == 0,
            !r.is_ref,
            r.tpl_decode_order == 0,
    {
        let none: TplRefDs = TplRefDs { picture_number: 0, pic_index: 0 };
        TplData {
            tpl_ref0_count: 0,
            tpl_ref1_count: 0,
            ref_in_slide_window: [[false; 8]; 2],
            ref_tpl_group_idx: [[0; 8]; 2],
            tpl_ref_ds: [[none; 8]; 2],
            tpl_slice_type: SliceType::B,
            tpl_temporal_layer_index: 0,
            is_ref: false,
            tpl_decode_order: 0,
        }
    }
}

/// A value fits 64 bits.
pub open spec fn fits(x: int) -> bool {
    i64::MIN <= x <= i64::MAX
}

/// Cost of a rate and a distortion, either of which may be negative.
pub fn rdcost_tpl(rdmult: i64, rate: i64, dist: i64) -> (r: i64)
    requires
        fits(rate * rdmult),
        fits(rate * rdmult + 256),
        fits(dist * 128),
        fits(rd(rdmult as int, rate as int, dist as int)),
    ensures
        r == rd(rdmult as int, rate as int, dist as int),
{
    let product: i64 = rate * rdmult + 256;
    proof {
        vstd::arithmetic::power2::lemma2_to64();
    }
    crate::arith::shr_i64(product, 9) + dist * 128
}

} // verus!
