//! What the look-ahead search of a superblock reads.

use vstd::prelude::*;

use crate::arith::wrap_i16;
use crate::quant::{table_wf, QuantTable};
use crate::tpl::dispenser::{
    edge_plan, fractional, frame_with, padded, predictor_at, rf_in_list, rf_list, IntraPlan, RecSource, SourceChoice,
    TplBlock,
};
use crate::tpl::samples::{kept_count, row_step, TplPic};
use crate::tpl::search::{subpel_plan, SubpelDepth, SubpelPlan, MI_LIMIT};
use crate::tpl::{TplData, MAX_TPL_LA_SW, NEWMV, SUB2_TX_SIZE_ARRAY, SUB4_TX_SIZE_ARRAY, TX_SIZE_ARRAY};
use crate::types::{BlockSize, MbEdges, Mv, SliceType};

verus! {

/// The part of a transform that is computed.
#[derive(Debug, Clone, Copy, PartialEq, Eq, Structural)]
pub enum TxShape {
    Full,
    /// The lower half of the frequencies each way.
    N2,
    /// The lower quarter of them.
    N4,
}

/// The superblock and the frame it belongs to.
#[derive(Debug)]
pub struct TplSbCtx<'a> {
    pub sb_x: u32,
    pub sb_y: u32,
    /// The frame.
    pub input: TplPic<'a>,
    pub slice_type: SliceType,
    pub aligned_width: u32,
    /// Cells of 16 samples in a row of the frame.
    pub aligned16_width: usize,
    /// Size of the frame in units of four samples.
    pub mi_rows: i32,
    pub mi_cols: i32,
    /// Largest size of the frames.
    pub max_input_luma_width: u32,
    pub max_input_luma_height: u32,
    pub synth_blk_size: u8,
    /// Every row is transformed, every second, or every fourth.
    pub subsample_tx: u8,
    pub shape: TxShape,
    /// Predictions from the source are compared sample by sample, without a
    /// transform.
    pub use_sad_in_src_search: bool,
    pub compute_rate: bool,
    /// The last intra mode that is tried.
    pub intra_mode_end: u8,
    pub subpel_depth: SubpelDepth,
    pub subpel_diag_refinement: u8,
    /// Rate multiplier of the refinement of vectors.
    pub rdmult: i32,
    pub quant: QuantTable,
    /// The order of the coefficients of the blocks of each search level.
    pub scans: Vec<Vec<u16>>,
    /// Intra prediction is left out.
    pub disable_intra_pred: bool,
    pub enable_me_16x16: bool,
    /// The outcome of the search on the source is kept for another pass.
    pub keep_source: bool,
    /// That outcome is there from an earlier pass.
    pub tpl_src_data_ready: bool,
    pub tpl_data: TplData,
    /// Frames of the window that have a reconstruction.
    pub base_tpl_valid_pic: Vec<u8>,
    /// Numbers of the frames of the window.
    pub poc_map_idx: Vec<u64>,
    /// The reference pictures.
    pub ref_pics: Vec<TplPic<'a>>,
    /// The reconstructions of the frames of the window.
    pub rec_refs: Vec<TplPic<'a>>,
}

/// A candidate of the motion search.
#[derive(Debug, Clone, Copy, PartialEq, Eq, Structural)]
pub struct TplMeCand {
    /// The list it predicts from; more than one for both.
    pub direction: u8,
    pub ref_idx_l0: u8,
    pub ref_idx_l1: u8,
}

/// The results of the motion search of a superblock; nothing in them where
/// there was none.
#[derive(Debug)]
pub struct TplMeResults {
    /// Number of candidates of each block.
    pub total_me_candidate_index: Vec<u8>,
    pub me_candidate_array: Vec<TplMeCand>,
    /// Room for the candidates of a block.
    pub max_cand: usize,
    pub me_mv_array: Vec<Mv>,
    /// Room for the vectors of a block, and for those of its first list.
    pub max_refs: usize,
    pub max_l0: usize,
}

/// Number of candidates of the block at a motion-search position: none in an
/// intra slice.
pub open spec fn candidates(slice_type: SliceType, me: TplMeResults, off: int) -> int {
    if slice_type == SliceType::I || me.total_me_candidate_index@.len() == 0 {
        0
    } else {
        me.total_me_candidate_index@[off] as int
    }
}

/// Candidate `n` of the block at a motion-search position.
pub open spec fn candidate(me: TplMeResults, off: int, n: int) -> TplMeCand {
    me.me_candidate_array@[off * me.max_cand + n]
}

/// The reference a candidate names in its list.
pub open spec fn named_ref(c: TplMeCand) -> int {
    if c.direction == 0 {
        c.ref_idx_l0 as int
    } else {
        c.ref_idx_l1 as int
    }
}

/// Place of the vector of a reference among those of the search.
pub open spec fn vector_at(me: TplMeResults, off: int, list: int, ref_idx: int) -> int {
    off * me.max_refs + (if list != 0 {
        me.max_l0 as int
    } else {
        0
    }) + ref_idx
}

/// Number of blocks that the motion search has results for.
pub open spec fn me_blocks(enable_me_16x16: bool) -> int {
    if enable_me_16x16 {
        21
    } else {
        5
    }
}

/// The motion-search results hold what `blocks` blocks of the superblock
/// read.
pub open spec fn me_fits(slice_type: SliceType, me: TplMeResults, blocks: int) -> bool {
    &&& 20 * me.max_cand + me.max_cand <= usize::MAX
    &&& 20 * me.max_refs + me.max_l0 + 4 <= usize::MAX
    &&& me.total_me_candidate_index@.len() > 0 ==> me.total_me_candidate_index@.len() >= blocks
    &&& forall|off: int, n: int|
        0 <= off < blocks && 0 <= n < candidates(slice_type, me, off) ==> {
            let c = #[trigger] candidate(me, off, n);
            &&& n < me.max_cand
            &&& off * me.max_cand + n < me.me_candidate_array@.len()
            &&& c.ref_idx_l0 < 4
            &&& c.ref_idx_l1 < 4
            &&& c.direction <= 1 ==> vector_at(me, off, c.direction as int, named_ref(c)) < me.me_mv_array@.len()
        }
}

/// The scan of a search level orders coefficients of its blocks.
pub open spec fn scan_fits(c: TplSbCtx, level: int) -> bool {
    let n = kept_count(side_at(level), row_step(c.subsample_tx as int));
    let scan = c.scans@[level]@;
    &&& scan.len() <= 4096
    &&& forall|i: int| 0 <= i < scan.len() ==> (#[trigger] scan[i]) < n
}

/// Side of the blocks of a search level.
pub open spec fn side_at(level: int) -> int {
    if level == 0 {
        16
    } else if level == 1 {
        32
    } else {
        64
    }
}

/// The frame and its references are described completely.
pub open spec fn ctx_fits(c: TplSbCtx) -> bool {
    &&& c.sb_x <= 4 * MI_LIMIT - 64
    &&& c.sb_y <= 4 * MI_LIMIT - 64
    &&& 0 <= c.mi_rows <= MI_LIMIT
    &&& 0 <= c.mi_cols <= MI_LIMIT
    &&& c.aligned_width <= 0x3fff_ffff
    &&& c.max_input_luma_width <= 4 * MI_LIMIT
    &&& c.max_input_luma_height <= 4 * MI_LIMIT
    &&& c.subsample_tx <= 2
    &&& c.intra_mode_end <= 12
    &&& c.aligned16_width <= 0x1_0000
    &&& table_wf(c.quant)
    &&& c.scans@.len() == 3
    &&& forall|level: int| 0 <= level < 3 ==> #[trigger] scan_fits(c, level)
    &&& c.input.y_stride > 0
    &&& forall|l: int, i: int|
        0 <= l < 2 && 0 <= i < 8 ==> (#[trigger] c.tpl_data.ref_tpl_group_idx[l][i]) < c.base_tpl_valid_pic@.len()
    &&& forall|l: int, i: int|
        0 <= l < 2 && 0 <= i < 4 ==> {
            let ds = #[trigger] c.tpl_data.tpl_ref_ds[l][i];
            &&& ds.pic_index < c.ref_pics@.len()
            &&& in_window(c, ds.picture_number, l, i)
        }
    &&& forall|k: int| 0 <= k < c.ref_pics@.len() ==> pic_fits(#[trigger] c.ref_pics@[k])
}

/// A reference picture of ordinary size.
pub open spec fn pic_fits(p: TplPic) -> bool {
    &&& p.max_width <= 4 * MI_LIMIT
    &&& p.max_height <= 4 * MI_LIMIT
    &&& p.origin <= 0x1fff_ffff
    &&& p.y_stride <= 0x1fff_ffff
}

/// A reference that is a frame of the window is found there.
pub open spec fn in_window(c: TplSbCtx, poc: u64, l: int, i: int) -> bool {
    c.tpl_data.ref_in_slide_window[l][i] ==> exists|j: int|
        0 <= j < MAX_TPL_LA_SW && #[trigger] frame_with(c.poc_map_idx@, poc, j)
}

/// A picture has the samples a vector points to; those of a fractional vector
/// are found by interpolation.
pub open spec fn pic_reads(p: TplPic, b: TplBlock, mv: Mv) -> bool {
    fractional(mv) || {
        let o = predictor_at(p.origin as int, p.y_stride as int, b.x as int, b.y as int, mv);
        &&& p.origin <= 0x1fff_ffff
        &&& p.y_stride <= 0x1fff_ffff
        &&& -0x1fff_ffff <= (b.y + mv.y as int / 8) * p.y_stride <= 0x1fff_ffff
        &&& 0 <= o
        &&& o + (b.size - 1) * p.y_stride + b.size <= p.y@.len()
    }
}

/// A vector of a block can be read in its reference picture and, where that
/// is a frame of the window, in its reconstruction.
pub open spec fn vector_reads(c: TplSbCtx, l: int, i: int, poc: u64, b: TplBlock, mv: Mv) -> bool {
    &&& pic_reads(c.ref_pics@[c.tpl_data.tpl_ref_ds[l][i].pic_index as int], b, mv)
    &&& forall|j: int|
        c.tpl_data.ref_in_slide_window[l][i] && #[trigger] frame_with(c.poc_map_idx@, poc, j) ==> {
            &&& j < c.rec_refs@.len()
            &&& pic_reads(c.rec_refs@[j], b, mv)
        }
}

/// A choice that a block can be reconstructed from.
pub open spec fn choice_fits(c: TplSbCtx, b: TplBlock, s: SourceChoice) -> bool {
    if s.best_mode == NEWMV {
        let l = rf_list(s.best_rf_idx as int);
        let i = rf_in_list(s.best_rf_idx as int);
        &&& 0 <= s.best_rf_idx < 8
        &&& in_window(c, s.ref_poc, l, i)
        &&& vector_reads(c, l, i, s.ref_poc, b, s.mv)
    } else {
        s.best_intra_mode <= 12
    }
}

/// Start vector of a reference, in eighths of a sample.
pub open spec fn start_mv(c: TplSbCtx, me: TplMeResults, off: int, b: TplBlock, list: int, ref_idx: int) -> Mv {
    let mv = me.me_mv_array@[vector_at(me, off, list, ref_idx)];
    let pic = c.ref_pics@[c.tpl_data.tpl_ref_ds[list][ref_idx].pic_index as int];
    Mv {
        x: wrap_i16(8 * padded(mv.x as int, b.x as int, b.size as int, pic.max_width as int)) as i16,
        y: wrap_i16(8 * padded(mv.y as int, b.y as int, b.size as int, pic.max_height as int)) as i16,
    }
}

/// What a block is reconstructed from.
pub open spec fn rec_source(c: TplSbCtx, s: SourceChoice, r: RecSource) -> bool {
    if s.best_mode != NEWMV {
        r is Intra
    } else {
        let l = rf_list(s.best_rf_idx as int);
        let i = rf_in_list(s.best_rf_idx as int);
        if c.tpl_data.ref_in_slide_window[l][i] {
            r matches RecSource::Window(j) && frame_with(c.poc_map_idx@, s.ref_poc, j as int)
        } else {
            r == RecSource::Picture(c.tpl_data.tpl_ref_ds[l][i].pic_index)
        }
    }
}

/// The plane that a prediction is read from.
pub open spec fn plane_of(c: TplSbCtx, r: RecSource) -> TplPic {
    match r {
        RecSource::Intra => c.input,
        RecSource::Window(j) => c.rec_refs@[j as int],
        RecSource::Picture(k) => c.ref_pics@[k as int],
    }
}

/// The frame may be referred to.
pub open spec fn referred(c: TplSbCtx) -> bool {
    !c.disable_intra_pred || c.tpl_data.is_ref
}

/// Only the flat mode is tried, and without a transform.
pub open spec fn flat_only(c: TplSbCtx) -> bool {
    c.use_sad_in_src_search && c.intra_mode_end == 0
}

/// Transform of the blocks of a search level.
pub open spec fn tx_at(c: TplSbCtx, level: int) -> int {
    if c.subsample_tx == 2 {
        SUB4_TX_SIZE_ARRAY[level] as int
    } else if c.subsample_tx == 1 {
        SUB2_TX_SIZE_ARRAY[level] as int
    } else {
        TX_SIZE_ARRAY[level] as int
    }
}

/// Search level of a block.
pub open spec fn level_at(size: int) -> int {
    if size == 16 {
        0
    } else if size == 32 {
        1
    } else {
        2
    }
}

/// Directions of the intra modes, in degrees; 0 where a mode has none.
pub const MODE_TO_ANGLE: [i32; 13] = [0, 90, 180, 45, 135, 113, 157, 203, 67, 0, 0, 0, 0];

/// What the prediction of a block in an intra mode reads.
pub open spec fn intra_plan(c: TplSbCtx, b: TplBlock, mode: int) -> IntraPlan {
    IntraPlan {
        edges: if !flat_only(c) && 1 <= mode <= 8 {
            Some(
                edge_plan(
                    MODE_TO_ANGLE[mode] as int,
                    c.max_input_luma_width as int,
                    c.max_input_luma_height as int,
                    b.x,
                    b.y,
                ),
            )
        } else {
            None
        },
        reach: if flat_only(c) {
            b.size as usize
        } else {
            (2 * b.size) as usize
        },
        has_left: b.x > 0,
        has_above: b.y > 0,
    }
}

/// The square block of a side.
pub open spec fn square(size: int) -> BlockSize {
    if size == 16 {
        BlockSize::Block16x16
    } else if size == 32 {
        BlockSize::Block32x32
    } else {
        BlockSize::Block64x64
    }
}

/// The square block of a side.
pub fn tpl_square(size: u32) -> (r: BlockSize)
    ensures
        r == square(size as int),
{
    if size == 16 {
        BlockSize::Block16x16
    } else if size == 32 {
        BlockSize::Block32x32
    } else {
        BlockSize::Block64x64
    }
}

/// Distances of a block to the sides of its frame, in eighths of a sample.
pub open spec fn edges_at(c: TplSbCtx, b: TplBlock) -> MbEdges {
    MbEdges {
        to_left: (-32 * (b.x as int / 4)) as i32,
        to_right: (32 * (c.mi_cols - square(b.size as int).wide_spec() / 4 - b.x as int / 4)) as i32,
        to_top: (-32 * (b.y as int / 4)) as i32,
        to_bottom: (32 * (c.mi_rows - square(b.size as int).high_spec() / 4 - b.y as int / 4)) as i32,
    }
}

/// The refinement of a vector of a block in reference picture `k`.
pub open spec fn refine_plan(c: TplSbCtx, k: int, b: TplBlock, start: Mv) -> SubpelPlan {
    let pic = c.ref_pics@[k];
    subpel_plan(
        c.subpel_depth,
        c.subpel_diag_refinement,
        c.mi_rows as int,
        c.mi_cols as int,
        square(b.size as int),
        b.x as int,
        b.y as int,
        pic.origin + b.x + b.y * pic.y_stride,
        c.input.origin + b.x + b.y * c.input.y_stride,
        c.rdmult as int,
        start,
    )
}

} // verus!
