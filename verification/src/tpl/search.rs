//! The search of one block: its neighbours, its place in the frame, and what
//! a prediction of it costs.

use vstd::arithmetic::mul::{lemma_mul_inequality, lemma_mul_nonnegative};
use vstd::prelude::*;

use crate::arith::{abs_i32, abs_int, lemma_total_bounds, max_int, min_int, total};
use crate::quant::{
    eob_of, floor_log2, ilog2, lemma_level_fits, quantize_fp, quantized_block, quantizer_inputs, Kernel, QuantTable,
};
use crate::raster::lemma_total_grows;
use crate::tpl::{TplStats, TPL_RDMULT_SCALING_FACTOR};
use crate::types::{BlockSize, MbEdges, Mv};

verus! {

/// The neighbours a block at `origin` has in a reconstructed plane: the
/// corner first, then the row above and the column to the left.
pub open spec fn dc_neighbors(
    src: Seq<u8>,
    stride: int,
    origin: int,
    bsize: int,
    above: Seq<u8>,
    left: Seq<u8>,
) -> bool {
    &&& above[0] == src[origin - stride - 1]
    &&& left[0] == src[origin - stride - 1]
    &&& forall|i: int| 0 <= i < bsize ==> #[trigger] above[1 + i] == src[origin - stride + i]
    &&& forall|i: int| 0 <= i < bsize ==> #[trigger] left[1 + i] == src[origin - 1 + i * stride]
}

/// Copies the neighbours of a block that has them all.
pub fn get_neighbor_samples_dc(
    src: &[u8],
    src_stride: usize,
    origin: usize,
    above: &mut [u8],
    left: &mut [u8],
    bsize: usize,
)
    requires
        bsize > 0,
        src_stride + 1 <= origin,
        origin - src_stride + bsize <= src@.len(),
        origin - 1 + (bsize - 1) * src_stride < src@.len(),
        old(above)@.len() > bsize,
        old(left)@.len() > bsize,
    ensures
        final(above)@.len() == old(above)@.len(),
        final(left)@.len() == old(left)@.len(),
        dc_neighbors(
            src@,
            src_stride as int,
            origin as int,
            bsize as int,
            final(above)@,
            final(left)@,
        ),
        forall|i: int| bsize < i < old(above)@.len() ==> #[trigger] final(above)@[i] == old(above)@[i],
        forall|i: int| bsize < i < old(left)@.len() ==> #[trigger] final(left)@[i] == old(left)@[i],
{
    let len: usize = src.len();
    let corner: u8 = src[origin - src_stride - 1];
    above[0] = corner;
    left[0] = corner;
    let ghost above0 = above@;
    let ghost left0 = left@;
    let mut i: usize = 0;
    while i < bsize
        invariant
            i <= bsize,
            len == src@.len(),
            src_stride + 1 <= origin,
            origin - src_stride + bsize <= len,
            origin - 1 + (bsize - 1) * src_stride < len,
            above@.len() == above0.len(),
            left@.len() == left0.len(),
            above0.len() > bsize,
            left0.len() > bsize,
            above@[0] == above0[0],
            left@[0] == left0[0],
            forall|k: int| 0 <= k < i ==> #[trigger] above@[1 + k] == src@[origin - src_stride + k],
            forall|k: int| 0 <= k < i ==> #[trigger] left@[1 + k] == src@[origin - 1 + k * src_stride],
            forall|k: int| i < k < above0.len() ==> #[trigger] above@[k] == above0[k],
            forall|k: int| i < k < left0.len() ==> #[trigger] left@[k] == left0[k],
        decreases bsize - i,
    {
        proof {
            lemma_mul_inequality(i as int, bsize - 1, src_stride as int);
            lemma_mul_nonnegative(i as int, src_stride as int);
        }
        above[1 + i] = src[origin - src_stride + i];
        left[1 + i] = src[origin - 1 + i * src_stride];
        i = i + 1;
    }
}

/// What the neighbours of a block at a possible frame edge are built from.
pub struct NeighborPlan {
    /// Build the neighbours beyond the far corners as well.
    pub extend: bool,
    /// Read the row above.
    pub read_top: bool,
    pub stride: int,
    pub width: int,
    pub height: int,
    pub x: int,
    pub y: int,
    pub bw: int,
    pub bh: int,
}

impl NeighborPlan {
    pub open spec fn origin(self) -> int {
        self.y * self.stride + self.x
    }

    /// Neighbours above.
    pub open spec fn above_len(self) -> int {
        if self.extend {
            2 * self.bw
        } else {
            self.bw
        }
    }

    /// Neighbours to the left.
    pub open spec fn left_len(self) -> int {
        if self.extend {
            2 * self.bh
        } else {
            self.bh
        }
    }

    /// Neighbours above that lie inside the frame.
    pub open spec fn above_inside(self) -> int {
        min_int(self.above_len(), self.width - self.x)
    }

    /// Left neighbours that are taken; their number follows the width.
    pub open spec fn left_inside(self) -> int {
        min_int(self.above_len(), self.height - self.y)
    }

    /// Left neighbours before the extension beyond the far corner; entry 0 is
    /// the corner.
    pub open spec fn left_base(self, buf: Seq<u8>, old_left: Seq<u8>, k: int) -> u8 {
        let o = self.origin();
        if self.x != 0 {
            if k == 0 {
                if self.y != 0 {
                    buf[o - self.stride - 1]
                } else {
                    buf[o - 1]
                }
            } else if k <= self.left_inside() {
                buf[o - 1 + (k - 1) * self.stride]
            } else if k <= self.left_len() {
                129
            } else {
                old_left[k]
            }
        } else if self.y != 0 && k <= self.left_inside() {
            buf[o - self.stride]
        } else if k == 0 {
            128
        } else if k <= self.left_len() {
            129
        } else {
            old_left[k]
        }
    }

    /// Left neighbours: beyond the far corner the last one repeats.
    pub open spec fn left_at(self, buf: Seq<u8>, old_left: Seq<u8>, k: int) -> u8 {
        if self.x != 0 && self.extend && self.bh < k <= self.left_len() {
            self.left_base(buf, old_left, self.bh)
        } else {
            self.left_base(buf, old_left, k)
        }
    }

    /// Neighbours above before the extension beyond the far corner; entry 0
    /// is the corner. In the first row they repeat a left neighbour.
    pub open spec fn above_base(self, buf: Seq<u8>, old_above: Seq<u8>, old_left: Seq<u8>, k: int) -> u8 {
        let o = self.origin();
        if self.y != 0 {
            if k == 0 {
                if self.x != 0 {
                    buf[o - self.stride - 1]
                } else {
                    buf[o - self.stride]
                }
            } else if self.read_top && k <= self.above_inside() {
                buf[o - self.stride + k - 1]
            } else if k <= self.above_len() {
                127
            } else {
                old_above[k]
            }
        } else if self.x != 0 && k <= self.above_inside() {
            self.left_at(buf, old_left, 1 + self.above_len() - self.above_inside())
        } else if k == 0 {
            128
        } else if k <= self.above_len() {
            127
        } else {
            old_above[k]
        }
    }

    /// Neighbours above: beyond the far corner the last one repeats.
    pub open spec fn above_at(self, buf: Seq<u8>, old_above: Seq<u8>, old_left: Seq<u8>, k: int) -> u8 {
        if self.y != 0 && self.x != 0 && self.extend && self.bw < k <= self.above_len() {
            self.above_base(buf, old_above, old_left, self.bw)
        } else {
            self.above_base(buf, old_above, old_left, k)
        }
    }

    /// The block starts inside the frame and every neighbour that is read
    /// lies in a buffer of `len` samples.
    pub open spec fn readable(self, len: int) -> bool {
        let o = self.origin();
        &&& self.x <= self.width
        &&& self.y <= self.height
        &&& self.x != 0 && self.y != 0 ==> o - self.stride - 1 < len
        &&& self.x != 0 ==> o - 1 < len
        &&& self.x != 0 ==> o - 1 + (self.left_inside() - 1) * self.stride < len
        &&& self.y != 0 ==> o - self.stride < len
        &&& self.y != 0 && self.read_top ==> o - self.stride + self.above_inside() <= len
    }
}

fn fill(s: &mut [u8], lo: usize, hi: usize, v: u8)
    requires
        lo <= hi <= old(s)@.len(),
    ensures
        final(s)@.len() == old(s)@.len(),
        forall|i: int|
            0 <= i < old(s)@.len() ==> #[trigger] final(s)@[i] == if lo <= i < hi {
                v
            } else {
                old(s)@[i]
            },
{
    let ghost s0 = s@;
    let mut i: usize = lo;
    while i < hi
        invariant
            lo <= i <= hi <= s@.len(),
            s@.len() == s0.len(),
            forall|k: int|
                0 <= k < s0.len() ==> #[trigger] s@[k] == if lo <= k < i {
                    v
                } else {
                    s0[k]
                },
        decreases hi - i,
    {
        s[i] = v;
        i = i + 1;
    }
}

/// Copies `n` samples, `step` apart in `src` from `from` on, to `s[1..]`.
fn gather(src: &[u8], from: usize, step: usize, n: usize, s: &mut [u8])
    requires
        n < old(s)@.len(),
        n > 0 ==> from + (n - 1) * step < src@.len(),
    ensures
        final(s)@.len() == old(s)@.len(),
        forall|i: int|
            0 <= i < old(s)@.len() ==> #[trigger] final(s)@[i] == if 1 <= i <= n {
                src@[from + (i - 1) * step]
            } else {
                old(s)@[i]
            },
{
    let ghost s0 = s@;
    let len: usize = src.len();
    let mut i: usize = 0;
    while i < n
        invariant
            i <= n < s@.len(),
            len == src@.len(),
            n > 0 ==> from + (n - 1) * step < len,
            s@.len() == s0.len(),
            forall|k: int|
                0 <= k < s0.len() ==> #[trigger] s@[k] == if 1 <= k <= i {
                    src@[from + (k - 1) * step]
                } else {
                    s0[k]
                },
        decreases n - i,
    {
        proof {
            lemma_mul_inequality(i as int, n - 1, step as int);
            lemma_mul_nonnegative(i as int, step as int);
        }
        s[1 + i] = src[from + i * step];
        i = i + 1;
    }
}

/// Builds the neighbours of a block that may lie at a frame edge: the corner
/// first, then the row above and the column to the left, with what lies
/// outside the frame filled in.
pub fn update_neighbor_samples_open_loop(
    use_top_right_bottom_left: bool,
    update_top_neighbor: bool,
    buf: &[u8],
    stride: usize,
    width: u32,
    height: u32,
    src_origin_x: u32,
    src_origin_y: u32,
    bwidth: usize,
    bheight: usize,
    above_ref: &mut [u8],
    left_ref: &mut [u8],
)
    requires
        ({
            let p = NeighborPlan {
                extend: use_top_right_bottom_left,
                read_top: update_top_neighbor,
                stride: stride as int,
                width: width as int,
                height: height as int,
                x: src_origin_x as int,
                y: src_origin_y as int,
                bw: bwidth as int,
                bh: bheight as int,
            };
            p.readable(buf@.len() as int) && old(above_ref)@.len() > p.above_len() && old(left_ref)@.len()
                > max_int(p.above_len(), p.left_len()) && (p.y == 0 && p.x != 0 ==> old(left_ref)@.len() > 1
                + p.above_len() - p.above_inside())
        }),
        src_origin_y * stride + src_origin_x <= usize::MAX,
        bwidth <= 0x1000_0000,
        bheight <= 0x1000_0000,
        width <= 0x3fff_ffff,
        height <= 0x3fff_ffff,
    ensures
        ({
            let p = NeighborPlan {
                extend: use_top_right_bottom_left,
                read_top: update_top_neighbor,
                stride: stride as int,
                width: width as int,
                height: height as int,
                x: src_origin_x as int,
                y: src_origin_y as int,
                bw: bwidth as int,
                bh: bheight as int,
            };
            &&& final(above_ref)@.len() == old(above_ref)@.len()
            &&& final(left_ref)@.len() == old(left_ref)@.len()
            &&& forall|k: int|
                0 <= k < old(above_ref)@.len() ==> #[trigger] final(above_ref)@[k] == p.above_at(
                    buf@,
                    old(above_ref)@,
                    old(left_ref)@,
                    k,
                )
            &&& forall|k: int|
                0 <= k < old(left_ref)@.len() ==> #[trigger] final(left_ref)@[k] == p.left_at(
                    buf@,
                    old(left_ref)@,
                    k,
                )
        }),
{
    let ghost p = NeighborPlan {
        extend: use_top_right_bottom_left,
        read_top: update_top_neighbor,
        stride: stride as int,
        width: width as int,
        height: height as int,
        x: src_origin_x as int,
        y: src_origin_y as int,
        bw: bwidth as int,
        bh: bheight as int,
    };
    let ghost above0 = above_ref@;
    let ghost left0 = left_ref@;
    let len: usize = buf.len();
    let bw_neigh: usize = if use_top_right_bottom_left {
        2 * bwidth
    } else {
        bwidth
    };
    let bh_neigh: usize = if use_top_right_bottom_left {
        2 * bheight
    } else {
        bheight
    };
    let x: usize = src_origin_x as usize;
    let y: usize = src_origin_y as usize;
    proof {
        lemma_mul_nonnegative(y as int, stride as int);
        if y >= 1 {
            lemma_mul_inequality(1, y as int, stride as int);
        }
    }
    let origin: usize = y * stride + x;
    let left_room: usize = (height - src_origin_y) as usize;
    let above_room: usize = (width - src_origin_x) as usize;
    let left_count: usize = if bw_neigh <= left_room {
        bw_neigh
    } else {
        left_room
    };
    let above_count: usize = if bw_neigh <= above_room {
        bw_neigh
    } else {
        above_room
    };
    assert(left_count == p.left_inside() && above_count == p.above_inside());
    fill(above_ref, 0, bw_neigh + 1, 127);
    fill(left_ref, 0, bh_neigh + 1, 129);
    if x != 0 && y != 0 {
        let t: u8 = buf[origin - stride - 1];
        above_ref[0] = t;
        left_ref[0] = t;
    } else {
        above_ref[0] = 128;
        left_ref[0] = 128;
    }
    if x != 0 {
        if y == 0 {
            left_ref[0] = buf[origin - 1];
        }
        gather(buf, origin - 1, stride, left_count, left_ref);
        if use_top_right_bottom_left {
            let v: u8 = left_ref[bheight];
            fill(left_ref, 1 + bheight, 1 + bh_neigh, v);
        }
    } else if y != 0 {
        let t: u8 = buf[origin - stride];
        fill(left_ref, 0, 1 + left_count, t);
        above_ref[0] = t;
    }
    assert forall|k: int| 0 <= k < left0.len() implies #[trigger] left_ref@[k] == p.left_at(buf@, left0, k) by {};
    if y != 0 {
        if update_top_neighbor {
            gather(buf, origin - stride, 1, above_count, above_ref);
        }
        if use_top_right_bottom_left && x != 0 {
            let v: u8 = above_ref[bwidth];
            fill(above_ref, 1 + bwidth, 1 + bw_neigh, v);
        }
    } else if x != 0 {
        let v: u8 = left_ref[1 + bw_neigh - above_count];
        fill(above_ref, 0, 1 + above_count, v);
    }
    assert forall|k: int| 0 <= k < above0.len() implies #[trigger] above_ref@[k] == p.above_at(
        buf@,
        above0,
        left0,
        k,
    ) by {};
}

/// Place of a block in its frame.
#[derive(Debug, Clone, Copy, PartialEq, Eq, Structural)]
pub struct TplXd {
    pub to_top: i32,
    pub to_bottom: i32,
    pub to_left: i32,
    pub to_right: i32,
    pub mi_row: i32,
    pub mi_col: i32,
}

/// Largest frame side, in units of four samples.
pub const MI_LIMIT: i32 = 0x10_0000;

impl TplXd {
    /// Place of the block at a sample position. Distances to the edges are in
    /// eighths of a sample.
    pub fn new(mi_rows: i32, mi_cols: i32, block_size: BlockSize, mb_origin_x: u32, mb_origin_y: u32) -> (r: Self)
        requires
            0 <= mi_rows <= MI_LIMIT,
            0 <= mi_cols <= MI_LIMIT,
            mb_origin_x <= 4 * MI_LIMIT,
            mb_origin_y <= 4 * MI_LIMIT,
        ensures
            r.mi_row == mb_origin_y / 4,
            r.mi_col == mb_origin_x / 4,
            r.to_top == -32 * r.mi_row,
            r.to_left == -32 * r.mi_col,
            r.to_bottom == 32 * (mi_rows - block_size.high_spec() / 4 - r.mi_row),
            r.to_right == 32 * (mi_cols - block_size.wide_spec() / 4 - r.mi_col),
    {
        let bw: i32 = (block_size.wide() / 4) as i32;
        let bh: i32 = (block_size.high() / 4) as i32;
        let mi_row: i32 = (mb_origin_y / 4) as i32;
        let mi_col: i32 = (mb_origin_x / 4) as i32;
        TplXd {
            to_top: -(mi_row * 32),
            to_bottom: (mi_rows - bh - mi_row) * 32,
            to_left: -(mi_col * 32),
            to_right: (mi_cols - bw - mi_col) * 32,
            mi_row,
            mi_col,
        }
    }

    /// The distances to the frame edges.
    pub fn edges(&self) -> (r: MbEdges)
        ensures
            r.to_left == self.to_left,
            r.to_right == self.to_right,
            r.to_top == self.to_top,
            r.to_bottom == self.to_bottom,
    {
        MbEdges {
            to_left: self.to_left,
            to_right: self.to_right,
            to_top: self.to_top,
            to_bottom: self.to_bottom,
        }
    }
}

/// How the refinement of a vector prices it. Vectors carry no rate here; the
/// multiplier still scales the error.
#[derive(Debug, Clone, Copy, PartialEq, Eq, Structural)]
pub struct MvCostParams {
    pub ref_mv: Mv,
    pub error_per_bit: i32,
    pub early_exit_th: i32,
}

/// Pricing of a vector under a rate multiplier.
pub fn tpl_init_mv_cost_params(ref_mv: Mv, rdmult: u32) -> (r: MvCostParams)
    ensures
        r.ref_mv == ref_mv,
        r.error_per_bit == max_int(rdmult as int / 64, 1),
        r.early_exit_th == 0,
{
    let e: u32 = rdmult / 64;
    MvCostParams {
        ref_mv,
        error_per_bit: if e > 1 {
            e as i32
        } else {
            1
        },
        early_exit_th: 0,
    }
}

/// Whole-sample range of a vector.
#[derive(Debug, Clone, Copy, PartialEq, Eq, Structural)]
pub struct FullMvLimits {
    pub col_min: i32,
    pub col_max: i32,
    pub row_min: i32,
    pub row_max: i32,
}

/// How far vectors are refined.
#[derive(Debug, Clone, Copy, PartialEq, Eq, Structural)]
pub enum SubpelDepth {
    Eighth,
    Quarter,
    Half,
    /// Whole samples only: not at all.
    Full,
}

/// What the fractional refinement of a vector starts from, and how it
/// searches.
#[derive(Debug, Clone, Copy, PartialEq, Eq, Structural)]
pub struct SubpelPlan {
    /// Range that keeps the prediction within reach of the frame.
    pub limits: FullMvLimits,
    pub cost: MvCostParams,
    /// Start, on a whole sample.
    pub start_mv: Mv,
    /// Position of the block in the reference and in the source.
    pub ref_base: usize,
    pub src_base: usize,
    pub iters_per_step: i32,
    /// Where the refinement stops.
    pub forced_stop: SubpelDepth,
    /// Eighths of a sample are searched.
    pub allow_hp: bool,
    /// Diagonal neighbours that are left out.
    pub skip_diag_refinement: u8,
    /// Filters with four taps interpolate.
    pub four_taps: bool,
    /// Thresholds that end a search early; none does.
    pub pred_variance_th: i32,
    pub abs_th_mult: i32,
    pub round_dev_th: i32,
    pub bias_fp: i32,
}

/// Samples beyond its own that the interpolation of a block reads.
pub const AOM_INTERP_EXTEND: i32 = 4;

/// `v` rounded down to a whole sample.
pub open spec fn whole_sample(v: int) -> int {
    8 * (v / 8)
}

/// Start, limits and settings of the fractional refinement of a block's
/// vector.
pub open spec fn subpel_plan(
    depth: SubpelDepth,
    skip_diag: u8,
    mi_rows: int,
    mi_cols: int,
    block_size: BlockSize,
    x: int,
    y: int,
    ref_base: int,
    src_base: int,
    rdmult: int,
    mv: Mv,
) -> SubpelPlan {
    SubpelPlan {
        limits: FullMvLimits {
            col_min: (-((x / 4 + block_size.wide_spec() / 4) * 4 + 4)) as i32,
            col_max: ((mi_cols - x / 4) * 4 + 4) as i32,
            row_min: (-((y / 4 + block_size.high_spec() / 4) * 4 + 4)) as i32,
            row_max: ((mi_rows - y / 4) * 4 + 4) as i32,
        },
        cost: MvCostParams {
            ref_mv: Mv { x: 0, y: 0 },
            error_per_bit: max_int(max_int(crate::arith::div_trunc(rdmult, 6), 0) / 64, 1) as i32,
            early_exit_th: 0,
        },
        start_mv: Mv { x: whole_sample(mv.x as int) as i16, y: whole_sample(mv.y as int) as i16 },
        ref_base: ref_base as usize,
        src_base: src_base as usize,
        iters_per_step: 2,
        forced_stop: depth,
        allow_hp: false,
        skip_diag_refinement: skip_diag,
        four_taps: true,
        pred_variance_th: 0,
        abs_th_mult: 0,
        round_dev_th: i32::MAX,
        bias_fp: 0,
    }
}

/// Plans the fractional refinement of a block's vector.
pub fn tpl_subpel_search(
    subpel_depth: SubpelDepth,
    subpel_diag_refinement: u8,
    mi_rows: i32,
    mi_cols: i32,
    block_size: BlockSize,
    mb_origin_x: u32,
    mb_origin_y: u32,
    ref_origin: usize,
    ref_stride: usize,
    src_origin: usize,
    src_stride: usize,
    rdmult: i32,
    best_mv: Mv,
) -> (r: SubpelPlan)
    requires
        0 <= mi_rows <= MI_LIMIT,
        0 <= mi_cols <= MI_LIMIT,
        mb_origin_x <= 4 * MI_LIMIT,
        mb_origin_y <= 4 * MI_LIMIT,
        ref_origin + mb_origin_x + mb_origin_y * ref_stride <= usize::MAX,
        src_origin + mb_origin_x + mb_origin_y * src_stride <= usize::MAX,
    ensures
        r == subpel_plan(
            subpel_depth,
            subpel_diag_refinement,
            mi_rows as int,
            mi_cols as int,
            block_size,
            mb_origin_x as int,
            mb_origin_y as int,
            ref_origin + mb_origin_x + mb_origin_y * ref_stride,
            src_origin + mb_origin_x + mb_origin_y * src_stride,
            rdmult as int,
            best_mv,
        ),
{
    let xd: TplXd = TplXd::new(mi_rows, mi_cols, block_size, mb_origin_x, mb_origin_y);
    let mi_width: i32 = (block_size.wide() / 4) as i32;
    let mi_height: i32 = (block_size.high() / 4) as i32;
    let limits: FullMvLimits = FullMvLimits {
        col_min: -((xd.mi_col + mi_width) * 4 + AOM_INTERP_EXTEND),
        col_max: (mi_cols - xd.mi_col) * 4 + AOM_INTERP_EXTEND,
        row_min: -((xd.mi_row + mi_height) * 4 + AOM_INTERP_EXTEND),
        row_max: (mi_rows - xd.mi_row) * 4 + AOM_INTERP_EXTEND,
    };
    let scaled: i32 = rdmult / TPL_RDMULT_SCALING_FACTOR;
    let positive: u32 = if scaled > 0 {
        scaled as u32
    } else {
        0
    };
    proof {
        lemma_mul_nonnegative(mb_origin_y as int, ref_stride as int);
        lemma_mul_nonnegative(mb_origin_y as int, src_stride as int);
        vstd::arithmetic::power2::lemma2_to64();
    }
    let x: i32 = crate::arith::shr_i32(best_mv.x as i32, 3);
    let y: i32 = crate::arith::shr_i32(best_mv.y as i32, 3);
    SubpelPlan {
        limits,
        cost: tpl_init_mv_cost_params(Mv { x: 0, y: 0 }, positive),
        start_mv: Mv { x: (x * 8) as i16, y: (y * 8) as i16 },
        ref_base: ref_origin + mb_origin_x as usize + mb_origin_y as usize * ref_stride,
        src_base: src_origin + mb_origin_x as usize + mb_origin_y as usize * src_stride,
        iters_per_step: 2,
        forced_stop: subpel_depth,
        allow_hp: false,
        skip_diag_refinement: subpel_diag_refinement,
        four_taps: true,
        pred_variance_th: 0,
        abs_th_mult: 0,
        round_dev_th: i32::MAX,
        bias_fp: 0,
    }
}

/// Squared difference of two coefficients.
pub open spec fn error_at(a: Seq<i32>, b: Seq<i32>) -> spec_fn(int) -> int {
    |i: int| (a[i] - b[i]) * (a[i] - b[i])
}

/// Squared coefficient.
pub open spec fn energy_at(a: Seq<i32>) -> spec_fn(int) -> int {
    |i: int| a[i] * a[i]
}

proof fn lemma_square(d: int, m: int)
    requires
        -m <= d <= m,
    ensures
        0 <= d * d <= m * m,
{
    assert(0 <= d * d <= m * m) by (nonlinear_arith)
        requires
            -m <= d <= m,
    ;
}

proof fn lemma_squares(a: Seq<i32>, b: Seq<i32>, n: int)
    ensures
        forall|i: int| 0 <= i < n ==> 0 <= #[trigger] error_at(a, b)(i),
        forall|i: int| 0 <= i < n ==> 0 <= #[trigger] energy_at(a)(i),
{
    assert forall|i: int| 0 <= i < n implies 0 <= #[trigger] error_at(a, b)(i) by {
        lemma_square(a[i] - b[i], abs_int(a[i] - b[i]));
    }
    assert forall|i: int| 0 <= i < n implies 0 <= #[trigger] energy_at(a)(i) by {
        lemma_square(a[i] as int, abs_int(a[i] as int));
    }
}

/// Squared error of a reconstruction, and squared energy of the original.
pub fn av1_block_error(coeff: &[i32], dqcoeff: &[i32], pix_num: usize) -> (r: (i64, i64))
    requires
        pix_num <= coeff@.len(),
        pix_num <= dqcoeff@.len(),
        total(error_at(coeff@, dqcoeff@), pix_num as int) <= i64::MAX,
        total(energy_at(coeff@), pix_num as int) <= i64::MAX,
    ensures
        r.0 == total(error_at(coeff@, dqcoeff@), pix_num as int),
        r.1 == total(energy_at(coeff@), pix_num as int),
        0 <= r.0,
        0 <= r.1,
{
    let ghost f = error_at(coeff@, dqcoeff@);
    let ghost g = energy_at(coeff@);
    let mut error: i64 = 0;
    let mut sqcoeff: i64 = 0;
    let mut i: usize = 0;
    while i < pix_num
        invariant
            i <= pix_num,
            pix_num <= coeff@.len(),
            pix_num <= dqcoeff@.len(),
            f == error_at(coeff@, dqcoeff@),
            g == energy_at(coeff@),
            total(f, pix_num as int) <= i64::MAX,
            total(g, pix_num as int) <= i64::MAX,
            error == total(f, i as int),
            sqcoeff == total(g, i as int),
            0 <= error,
            0 <= sqcoeff,
        decreases pix_num - i,
    {
        let c: i64 = coeff[i] as i64;
        let diff: i64 = c - dqcoeff[i] as i64;
        proof {
            lemma_squares(coeff@, dqcoeff@, pix_num as int);
            lemma_total_grows(f, i + 1, pix_num as int);
            lemma_total_grows(g, i + 1, pix_num as int);
            assert(f(i as int) == diff * diff);
            assert(g(i as int) == c * c);
        }
        error = error + diff * diff;
        sqcoeff = sqcoeff + c * c;
        i = i + 1;
    }
    (error, sqcoeff)
}

/// Quantizes a block, and measures what that costs: the squared error and the
/// energy, in pixel scale unless the transform is 32x32, at least one.
pub fn get_quantize_error(
    quant: &QuantTable,
    coeff: &[i32],
    qcoeff: &mut [i32],
    dqcoeff: &mut [i32],
    scan: &[u16],
    pix_num: usize,
    is_tx_32x32: bool,
    eob: &mut u16,
    recon_error: &mut i64,
    sse: &mut i64,
)
    requires
        quantizer_inputs(coeff@, scan@, *quant, 0, old(qcoeff)@.len() as int, old(dqcoeff)@.len() as int),
        pix_num <= coeff@.len(),
        pix_num <= 4096,
    ensures
        quantized_block(
            (Kernel { dead_zone: false, saturate: true }),
            coeff@,
            |rc: int| true,
            *quant,
            0,
            None,
            None,
            old(qcoeff)@,
            old(dqcoeff)@,
            final(qcoeff)@,
            final(dqcoeff)@,
        ),
        *final(eob) == eob_of(scan@, final(qcoeff)@),
        *final(recon_error) == max_int(
            total(error_at(coeff@, final(dqcoeff)@), pix_num as int) / (if is_tx_32x32 {
                1int
            } else {
                4
            }),
            1,
        ),
        *final(sse) == max_int(
            total(energy_at(coeff@), pix_num as int) / (if is_tx_32x32 {
                1int
            } else {
                4
            }),
            1,
        ),
{
    *eob = quantize_fp(coeff, scan, quant, 0, qcoeff, dqcoeff);
    proof {
        let k = Kernel { dead_zone: false, saturate: true };
        assert forall|i: int| 0 <= i < pix_num implies -0xff_ffff <= #[trigger] dqcoeff@[i] <= 0xff_ffff by {
            lemma_level_fits(k, *quant, 0, None, i, coeff@[i] as int);
            let level = crate::quant::level_of(k, *quant, 0, None, i, coeff@[i] as int);
            assert(crate::quant::weight_at(None, i) is None);
            assert(abs_int(qcoeff@[i] as int) == level);
            let step = crate::quant::weighted_step(quant.dequant@, i, 32);
            assert(step >= 0) by {
                assert(quant.dequant[crate::quant::entry_of(i)] >= 0);
            }
            lemma_mul_nonnegative(level, step);
            vstd::arithmetic::power2::lemma2_to64();
        }
        let (f, g) = (error_at(coeff@, dqcoeff@), energy_at(coeff@));
        assert forall|i: int| 0 <= i < pix_num implies 0 <= #[trigger] f(i) <= 0x3_ffff_fff0_0000 by {
            assert(-0xff_ffff <= dqcoeff@[i] <= 0xff_ffff && -0xff_ffff <= coeff@[i] <= 0xff_ffff);
            lemma_square(coeff@[i] - dqcoeff@[i], 0x1ff_fffe);
        }
        assert forall|i: int| 0 <= i < pix_num implies 0 <= #[trigger] g(i) <= 0x3_ffff_fff0_0000 by {
            assert(-0xff_ffff <= coeff@[i] <= 0xff_ffff);
            lemma_square(coeff@[i] as int, 0xff_ffff);
        }
        lemma_total_bounds(f, pix_num as int, 0, 0x3_ffff_fff0_0000);
        lemma_total_bounds(g, pix_num as int, 0, 0x3_ffff_fff0_0000);
    }
    let (err, sq) = av1_block_error(coeff, dqcoeff, pix_num);
    let (e, s): (i64, i64) = if is_tx_32x32 {
        (err, sq)
    } else {
        (err / 4, sq / 4)
    };
    *recon_error = if e > 1 {
        e
    } else {
        1
    };
    *sse = if s > 1 {
        s
    } else {
        1
    };
}

/// Bits of one level: the length of its magnitude plus one, and a sign.
pub open spec fn level_bits(q: Seq<i32>, scan: Seq<u16>) -> spec_fn(int) -> int {
    |i: int| {
        let a = abs_int(q[scan[i] as int] as int);
        ilog2(a + 1) + if a > 0 {
            1int
        } else {
            0
        }
    }
}

/// Estimated rate of a quantized block: the end position, one more, and the
/// bits of every level up to it.
pub fn rate_estimator(qcoeff: &[i32], eob: usize, scan: &[u16]) -> (r: i32)
    requires
        eob <= scan@.len(),
        eob <= 4096,
        forall|i: int| 0 <= i < eob ==> (#[trigger] scan@[i]) < qcoeff@.len(),
        forall|i: int| 0 <= i < eob ==> qcoeff@[#[trigger] scan@[i] as int] > i32::MIN,
    ensures
        r == 512 * (eob + 1 + total(level_bits(qcoeff@, scan@), eob as int)),
{
    let ghost f = level_bits(qcoeff@, scan@);
    let mut rate_cost: i32 = eob as i32 + 1;
    let mut i: usize = 0;
    while i < eob
        invariant
            i <= eob <= 4096,
            eob <= scan@.len(),
            f == level_bits(qcoeff@, scan@),
            forall|k: int| 0 <= k < eob ==> (#[trigger] scan@[k]) < qcoeff@.len(),
            forall|k: int| 0 <= k < eob ==> qcoeff@[#[trigger] scan@[k] as int] > i32::MIN,
            rate_cost == eob + 1 + total(f, i as int),
            rate_cost <= eob + 1 + 32 * i,
            0 <= rate_cost,
        decreases eob - i,
    {
        let abs_level: i32 = abs_i32(qcoeff[scan[i] as usize]);
        let bits: u32 = floor_log2(abs_level as u32 + 1);
        let sign: i32 = if abs_level > 0 {
            1
        } else {
            0
        };
        assert(f(i as int) == bits + sign);
        rate_cost = rate_cost + bits as i32 + sign;
        i = i + 1;
    }
    rate_cost * 512
}

/// A value of at least one.
pub open spec fn at_least_one(x: int) -> int {
    max_int(x, 1)
}

/// Statistics with every distortion and rate divided by `d`, at least one.
pub open spec fn shared_among(st: TplStats, d: int) -> TplStats {
    TplStats {
        srcrf_dist: at_least_one(at_least_one(st.srcrf_dist as int) / d) as i64,
        recrf_dist: at_least_one(at_least_one(st.recrf_dist as int) / d) as i64,
        srcrf_rate: at_least_one(at_least_one(st.srcrf_rate as int) / d) as i64,
        recrf_rate: at_least_one(at_least_one(st.recrf_rate as int) / d) as i64,
        ..st
    }
}

/// Samples per side of a grid cell.
pub open spec fn cell_side(synth_blk_size: u8) -> int {
    if synth_blk_size == 32 {
        32
    } else if synth_blk_size == 16 {
        16
    } else {
        8
    }
}

/// Cells per row of the grid.
pub open spec fn grid_stride(synth_blk_size: u8, aligned_width: int) -> int {
    if synth_blk_size == 32 {
        (aligned_width + 31) / 32
    } else if synth_blk_size == 16 {
        (aligned_width + 15) / 16
    } else {
        2 * ((aligned_width + 15) / 16)
    }
}

/// Cells per side of a block of the given size; none where the size is not
/// kept.
pub open spec fn cells_per_side(synth_blk_size: u8, size: u32) -> int {
    if synth_blk_size == 32 {
        1
    } else if size == 32 {
        32int / cell_side(synth_blk_size)
    } else if size == 16 {
        16int / cell_side(synth_blk_size)
    } else {
        0
    }
}

/// First cell of the block at a sample position.
pub open spec fn first_cell(synth_blk_size: u8, aligned_width: int, x: int, y: int) -> int {
    (y / cell_side(synth_blk_size)) * grid_stride(synth_blk_size, aligned_width) + x / cell_side(synth_blk_size)
}

/// Cell in row `r` and column `c` of a block.
pub open spec fn cell_of(first: int, stride: int, r: int, c: int) -> int {
    first + r * stride + c
}

/// The cell belongs to the block.
pub open spec fn in_block(i: int, first: int, stride: int, n: int) -> bool {
    exists|r: int, c: int| 0 <= r < n && 0 <= c < n && i == #[trigger] cell_of(first, stride, r, c)
}

/// `new` is `old_grid` with `st` in every cell of a block.
pub open spec fn block_stored(
    old_grid: Seq<TplStats>,
    new: Seq<TplStats>,
    st: TplStats,
    first: int,
    stride: int,
    n: int,
) -> bool {
    &&& new.len() == old_grid.len()
    &&& forall|i: int|
        0 <= i < old_grid.len() ==> #[trigger] new[i] == if in_block(i, first, stride, n) {
            st
        } else {
            old_grid[i]
        }
}

fn store_block(grid: &mut [TplStats], st: TplStats, first: usize, stride: usize, n: usize)
    requires
        n <= 4,
        n > 0 ==> first + (n - 1) * stride + (n - 1) < old(grid)@.len(),
    ensures
        block_stored(old(grid)@, final(grid)@, st, first as int, stride as int, n as int),
{
    let ghost grid0 = grid@;
    let len: usize = grid.len();
    let mut r: usize = 0;
    while r < n
        invariant
            r <= n <= 4,
            len == grid@.len(),
            grid@.len() == grid0.len(),
            n > 0 ==> first + (n - 1) * stride + (n - 1) < len,
            forall|i: int|
                0 <= i < grid0.len() ==> #[trigger] grid@[i] == if exists|rr: int, cc: int|
                    0 <= rr < r && 0 <= cc < n && i == #[trigger] cell_of(first as int, stride as int, rr, cc) {
                    st
                } else {
                    grid0[i]
                },
        decreases n - r,
    {
        let ghost before = grid@;
        let mut c: usize = 0;
        while c < n
            invariant
                r < n <= 4,
                c <= n,
                len == grid@.len(),
                grid@.len() == grid0.len(),
                before.len() == grid0.len(),
                first + (n - 1) * stride + (n - 1) < len,
                forall|i: int|
                    0 <= i < grid0.len() ==> #[trigger] grid@[i] == if exists|cc: int|
                        0 <= cc < c && i == #[trigger] cell_of(first as int, stride as int, r as int, cc) {
                        st
                    } else {
                        before[i]
                    },
            decreases n - c,
        {
            proof {
                lemma_mul_inequality(r as int, n - 1, stride as int);
                lemma_mul_nonnegative(r as int, stride as int);
            }
            let ghost prev = grid@;
            let at: usize = first + r * stride + c;
            grid[at] = st;
            proof {
                assert(at == cell_of(first as int, stride as int, r as int, c as int));
                assert forall|i: int| 0 <= i < grid0.len() implies #[trigger] grid@[i] == if exists|cc: int|
                    0 <= cc < c + 1 && i == #[trigger] cell_of(first as int, stride as int, r as int, cc) {
                    st
                } else {
                    before[i]
                } by {
                    if i == at {
                    } else {
                        assert(grid@[i] == prev[i]);
                    }
                }
            }
            c = c + 1;
        }
        proof {
            assert forall|i: int| 0 <= i < grid0.len() implies #[trigger] grid@[i] == if exists|rr: int, cc: int|
                0 <= rr < r + 1 && 0 <= cc < n && i == #[trigger] cell_of(first as int, stride as int, rr, cc) {
                st
            } else {
                grid0[i]
            } by {
                assert(before[i] == before[i]);
            }
        }
        r = r + 1;
    }
}

fn one_or_more(x: i64) -> (r: i64)
    ensures
        r == at_least_one(x as int),
{
    if x > 1 {
        x
    } else {
        1
    }
}

fn divided(st: &TplStats, d: i64) -> (r: TplStats)
    requires
        1 <= d,
    ensures
        r == shared_among(*st, d as int),
{
    let a: i64 = one_or_more(st.srcrf_dist);
    let b: i64 = one_or_more(st.recrf_dist);
    let c: i64 = one_or_more(st.srcrf_rate);
    let e: i64 = one_or_more(st.recrf_rate);
    TplStats {
        srcrf_dist: one_or_more(a / d),
        recrf_dist: one_or_more(b / d),
        srcrf_rate: one_or_more(c / d),
        recrf_rate: one_or_more(e / d),
        mc_dep_rate: st.mc_dep_rate,
        mc_dep_dist: st.mc_dep_dist,
        mv: st.mv,
        ref_frame_poc: st.ref_frame_poc,
    }
}

/// Stores the statistics of a block in the grid: shared evenly among the
/// cells it covers, none below one.
pub fn result_model_store(
    tpl_stats: &mut TplStats,
    tpl_stats_grid: &mut [TplStats],
    synth_blk_size: u8,
    aligned_width: u32,
    mb_origin_x: u32,
    mb_origin_y: u32,
    size: u32,
)
    requires
        aligned_width <= 0x3fff_ffff,
        ({
            let n = cells_per_side(synth_blk_size, size);
            let stride = grid_stride(synth_blk_size, aligned_width as int);
            let first = first_cell(synth_blk_size, aligned_width as int, mb_origin_x as int, mb_origin_y as int);
            first <= usize::MAX && (n > 0 ==> first + (n - 1) * stride + (n - 1) < old(tpl_stats_grid)@.len())
        }),
    ensures
        ({
            let n = cells_per_side(synth_blk_size, size);
            *final(tpl_stats) == shared_among(
                *old(tpl_stats),
                if n > 1 {
                    n * n
                } else {
                    1
                },
            )
        }),
        block_stored(
            old(tpl_stats_grid)@,
            final(tpl_stats_grid)@,
            *final(tpl_stats),
            first_cell(synth_blk_size, aligned_width as int, mb_origin_x as int, mb_origin_y as int),
            grid_stride(synth_blk_size, aligned_width as int),
            cells_per_side(synth_blk_size, size),
        ),
{
    let (side, stride): (usize, usize) = if synth_blk_size == 32 {
        (32, (aligned_width as usize + 31) / 32)
    } else if synth_blk_size == 16 {
        (16, (aligned_width as usize + 15) / 16)
    } else {
        (8, 2 * ((aligned_width as usize + 15) / 16))
    };
    let n: usize = if synth_blk_size == 32 {
        1
    } else if size == 32 {
        32 / side
    } else if size == 16 {
        16 / side
    } else {
        0
    };
    let d: i64 = if n == 4 {
        16
    } else if n == 2 {
        4
    } else {
        1
    };
    *tpl_stats = divided(tpl_stats, d);
    proof {
        let m = cells_per_side(synth_blk_size, size);
        assert(m == n);
        if m == 2 {
            assert(m * m == 4) by (nonlinear_arith)
                requires
                    m == 2,
            ;
        }
        if m == 4 {
            assert(m * m == 16) by (nonlinear_arith)
                requires
                    m == 4,
            ;
        }
        lemma_mul_nonnegative(mb_origin_y as int / side as int, stride as int);
    }
    let first: usize = (mb_origin_y as usize / side) * stride + mb_origin_x as usize / side;
    store_block(tpl_stats_grid, *tpl_stats, first, stride, n);
}

/// Whatever a block stores is at least one, so that the model can divide by
/// it.
pub proof fn stored_statistics_are_positive(st: TplStats, d: int)
    requires
        d >= 1,
    ensures
        shared_among(st, d).srcrf_dist >= 1,
        shared_among(st, d).recrf_dist >= 1,
        shared_among(st, d).srcrf_rate >= 1,
        shared_among(st, d).recrf_rate >= 1,
{
    vstd::arithmetic::div_mod::lemma_div_nonincreasing(at_least_one(st.srcrf_dist as int), d);
    vstd::arithmetic::div_mod::lemma_div_nonincreasing(at_least_one(st.recrf_dist as int), d);
    vstd::arithmetic::div_mod::lemma_div_nonincreasing(at_least_one(st.srcrf_rate as int), d);
    vstd::arithmetic::div_mod::lemma_div_nonincreasing(at_least_one(st.recrf_rate as int), d);
}

} // verus!
