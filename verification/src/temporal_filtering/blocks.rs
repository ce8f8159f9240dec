//! The blocks of the filter: how a block is split, where its parts lie, and
//! which predictions it asks for.

use vstd::arithmetic::mul::{lemma_mul_inequality, lemma_mul_nonnegative};
use vstd::prelude::*;

use crate::arith::{
    div_trunc, low_i32, low_u16, low_u32, max_int, shr_int, shr_u32, shr_usize, sign_extended_u64, wrap_i32,
};
use crate::temporal_filtering::kernels::{chroma, is_split, TfKernelCtx};

verus! {

/// Errors of the parts of a 64x64 block, and which of them are split.
#[derive(Debug, Clone, Copy)]
pub struct TfSplitCtx {
    /// The 32x32 block that is decided.
    pub idx_32x32: usize,
    pub enable_8x8_pred: bool,
    pub tf_32x32_block_error: [u64; 4],
    pub tf_16x16_block_error: [u64; 16],
    pub tf_8x8_block_error: [u64; 64],
    pub tf_32x32_block_split_flag: [i32; 4],
    pub tf_16x16_block_split_flag: [[i32; 4]; 4],
}

impl Default for TfSplitCtx {
    fn default() -> (r: Self)
        ensures
            r.idx_32x32 == 0,
            !r.enable_8x8_pred,
            forall|i: int| 0 <= i < 4 ==> #[trigger] r.tf_32x32_block_error[i] == 0,
            forall|i: int| 0 <= i < 16 ==> #[trigger] r.tf_16x16_block_error[i] == 0,
            forall|i: int| 0 <= i < 64 ==> #[trigger] r.tf_8x8_block_error[i] == 0,
            forall|i: int| 0 <= i < 4 ==> #[trigger] r.tf_32x32_block_split_flag[i] == 0,
            forall|i: int, j: int|
                0 <= i < 4 && 0 <= j < 4 ==> #[trigger] r.tf_16x16_block_split_flag[i][j] == 0,
    {
        TfSplitCtx {
            idx_32x32: 0,
            enable_8x8_pred: false,
            tf_32x32_block_error: [0; 4],
            tf_16x16_block_error: [0; 16],
            tf_8x8_block_error: [0; 64],
            tf_32x32_block_split_flag: [0; 4],
            tf_16x16_block_split_flag: [[0; 4]; 4],
        }
    }
}

/// The error of a 32x32 block, in 32 bits.
pub open spec fn error32(c: TfSplitCtx) -> int {
    wrap_i32(c.tf_32x32_block_error[c.idx_32x32 as int] as int)
}

/// A block that has not been searched yet: the error is still at its initial
/// value.
pub open spec fn unsearched(c: TfSplitCtx) -> bool {
    error32(c) == i32::MAX
}

/// Error of 16x16 block `i` in one piece, in 32 bits.
pub open spec fn error16(c: TfSplitCtx, i: int) -> int {
    wrap_i32(c.tf_16x16_block_error[c.idx_32x32 * 4 + i] as int)
}

/// Error of 16x16 block `i` in quarters, in 32 bits.
pub open spec fn error8(c: TfSplitCtx, i: int) -> int {
    let k = c.idx_32x32 * 16 + 4 * i;
    wrap_i32(
        c.tf_8x8_block_error[k] + c.tf_8x8_block_error[k + 1] + c.tf_8x8_block_error[k + 2]
            + c.tf_8x8_block_error[k + 3],
    )
}

/// 16x16 block `i` is split: it is not better than half of its quarters'
/// error by more than twice.
pub open spec fn splits16(c: TfSplitCtx, i: int) -> bool {
    c.enable_8x8_pred && wrap_i32(8 * error16(c, i)) >= wrap_i32(16 * error8(c, i))
}

/// Error of 16x16 block `i` after that choice.
pub open spec fn chosen16(c: TfSplitCtx, i: int) -> int {
    if splits16(c, i) {
        error8(c, i)
    } else {
        error16(c, i)
    }
}

/// The 32x32 block is split.
pub open spec fn splits32(c: TfSplitCtx) -> bool {
    wrap_i32(14 * error32(c)) >= wrap_i32(
        16 * wrap_i32(chosen16(c, 0) + chosen16(c, 1) + chosen16(c, 2) + chosen16(c, 3)),
    )
}

/// A flag as a number.
pub open spec fn flag(b: bool) -> int {
    if b {
        1
    } else {
        0
    }
}

/// What deciding a 32x32 block changes: its own flag, the flags of its four
/// quarters, and the errors of the quarters that are split further.
pub open spec fn split_decided(c: TfSplitCtx, r: TfSplitCtx) -> bool {
    let idx = c.idx_32x32 as int;
    &&& r.idx_32x32 == c.idx_32x32
    &&& r.enable_8x8_pred == c.enable_8x8_pred
    &&& r.tf_32x32_block_error == c.tf_32x32_block_error
    &&& r.tf_8x8_block_error == c.tf_8x8_block_error
    &&& forall|i: int|
        0 <= i < 4 ==> #[trigger] r.tf_32x32_block_split_flag[i] == if i == idx {
            flag(!unsearched(c) && splits32(c))
        } else {
            c.tf_32x32_block_split_flag[i] as int
        }
    &&& forall|j: int, i: int|
        0 <= j < 4 && 0 <= i < 4 ==> #[trigger] r.tf_16x16_block_split_flag[j][i] == if j == idx {
            flag(!unsearched(c) && splits16(c, i))
        } else {
            c.tf_16x16_block_split_flag[j][i] as int
        }
    &&& forall|k: int|
        0 <= k < 16 ==> #[trigger] r.tf_16x16_block_error[k] == if k / 4 == idx && !unsearched(c) && splits16(
            c,
            k % 4,
        ) {
            error8(c, k % 4) % 0x1_0000_0000_0000_0000
        } else {
            c.tf_16x16_block_error[k] as int
        }
}

fn low32(e: u64) -> (r: i32)
    ensures
        r == wrap_i32(e as int),
{
    crate::arith::signed_u32(crate::arith::low_u32(e))
}

/// Progress of the decision: the first `n` quarters are decided.
pub open spec fn quarters_decided(c: TfSplitCtx, r: TfSplitCtx, n: int) -> bool {
    let idx = c.idx_32x32 as int;
    &&& r.idx_32x32 == c.idx_32x32
    &&& r.enable_8x8_pred == c.enable_8x8_pred
    &&& r.tf_32x32_block_error == c.tf_32x32_block_error
    &&& r.tf_8x8_block_error == c.tf_8x8_block_error
    &&& r.tf_32x32_block_split_flag == c.tf_32x32_block_split_flag
    &&& forall|j: int, i: int|
        0 <= j < 4 && 0 <= i < 4 ==> #[trigger] r.tf_16x16_block_split_flag[j][i] == if j == idx && i < n {
            flag(splits16(c, i))
        } else {
            c.tf_16x16_block_split_flag[j][i] as int
        }
    &&& forall|k: int|
        0 <= k < 16 ==> #[trigger] r.tf_16x16_block_error[k] == if k / 4 == idx && k % 4 < n && splits16(c, k % 4) {
            error8(c, k % 4) % 0x1_0000_0000_0000_0000
        } else {
            c.tf_16x16_block_error[k] as int
        }
}

proof fn lemma_wrap_sum(a: int, b: int, c: int, d: int)
    ensures
        wrap_i32(wrap_i32(a) + wrap_i32(b) + wrap_i32(c) + wrap_i32(d)) == wrap_i32(a + b + c + d),
{
    lemma_wrap_term(a, wrap_i32(b) + wrap_i32(c) + wrap_i32(d));
    lemma_wrap_term(b, a + wrap_i32(c) + wrap_i32(d));
    lemma_wrap_term(c, a + b + wrap_i32(d));
    lemma_wrap_term(d, a + b + c);
}

proof fn lemma_wrap_term(a: int, rest: int)
    ensures
        wrap_i32(wrap_i32(a) + rest) == wrap_i32(a + rest),
{
    let k = (a + 0x8000_0000) / 0x1_0000_0000;
    assert(wrap_i32(a) == a - 0x1_0000_0000 * k);
}

/// Error of 16x16 block `i` in quarters.
fn parts_error(c: &TfSplitCtx, i: usize) -> (r: i32)
    requires
        i < 4,
        c.idx_32x32 < 4,
    ensures
        r == error8(*c, i as int),
{
    let k: usize = c.idx_32x32 * 16 + 4 * i;
    proof {
        lemma_wrap_sum(
            c.tf_8x8_block_error[k as int] as int,
            c.tf_8x8_block_error[k + 1] as int,
            c.tf_8x8_block_error[k + 2] as int,
            c.tf_8x8_block_error[k + 3] as int,
        );
    }
    low_i32(
        low32(c.tf_8x8_block_error[k]) as i64 + low32(c.tf_8x8_block_error[k + 1]) as i64 + low32(
            c.tf_8x8_block_error[k + 2],
        ) as i64 + low32(c.tf_8x8_block_error[k + 3]) as i64,
    )
}

/// Whether 16x16 block `i` is split, and its error after that choice.
fn quarter_choice(c: &TfSplitCtx, i: usize) -> (r: (bool, i32))
    requires
        i < 4,
        c.idx_32x32 < 4,
    ensures
        r.0 == splits16(*c, i as int),
        r.1 == chosen16(*c, i as int),
        r.0 ==> r.1 == error8(*c, i as int),
{
    let whole: i32 = low32(c.tf_16x16_block_error[c.idx_32x32 * 4 + i]);
    if c.enable_8x8_pred {
        let parts: i32 = parts_error(c, i);
        if low_i32(8 * whole as i64) >= low_i32(16 * parts as i64) {
            return (true, parts);
        }
    }
    (false, whole)
}

fn decide_quarter(ctx: &mut TfSplitCtx, i: usize, Ghost(c): Ghost<TfSplitCtx>) -> (r: i32)
    requires
        i < 4,
        c.idx_32x32 < 4,
        quarters_decided(c, *old(ctx), i as int),
    ensures
        quarters_decided(c, *final(ctx), i + 1),
        r == chosen16(c, i as int),
{
    let idx: usize = ctx.idx_32x32;
    let at: usize = idx * 4 + i;
    proof {
        assert(at as int / 4 == idx && at as int % 4 == i);
        assert(ctx.tf_16x16_block_error[at as int] == c.tf_16x16_block_error[at as int]);
        assert(error16(*ctx, i as int) == error16(c, i as int));
        assert(error8(*ctx, i as int) == error8(c, i as int));
    }
    let (split, error) = quarter_choice(ctx, i);
    if split {
        ctx.tf_16x16_block_split_flag[idx][i] = 1;
        ctx.tf_16x16_block_error[at] = sign_extended_u64(error);
    } else {
        ctx.tf_16x16_block_split_flag[idx][i] = 0;
    }
    proof {
        assert forall|k: int| 0 <= k < 16 implies #[trigger] ctx.tf_16x16_block_error[k] == if k / 4 == idx && k % 4
            < i + 1 && splits16(c, k % 4) {
            error8(c, k % 4) % 0x1_0000_0000_0000_0000
        } else {
            c.tf_16x16_block_error[k] as int
        } by {
            if k / 4 == idx && k % 4 == i {
                assert(k == at);
            } else {
                assert(k != at);
            }
        }
    }
    error
}

/// Decides whether a 32x32 block is predicted in quarters, and each quarter
/// in quarters of its own. A block that has not been searched stays whole.
pub fn derive_tf_32x32_block_split_flag(ctx: &mut TfSplitCtx)
    requires
        old(ctx).idx_32x32 < 4,
    ensures
        split_decided(*old(ctx), *final(ctx)),
{
    let ghost c = *ctx;
    let idx: usize = ctx.idx_32x32;
    let block_error: i32 = low32(ctx.tf_32x32_block_error[idx]);
    if block_error == i32::MAX {
        ctx.tf_32x32_block_split_flag[idx] = 0;
        ctx.tf_16x16_block_split_flag[idx] = [0; 4];
        return;
    }
    let e0: i32 = decide_quarter(ctx, 0, Ghost(c));
    let e1: i32 = decide_quarter(ctx, 1, Ghost(c));
    let e2: i32 = decide_quarter(ctx, 2, Ghost(c));
    let e3: i32 = decide_quarter(ctx, 3, Ghost(c));
    let sum: i32 = low_i32(e0 as i64 + e1 as i64 + e2 as i64 + e3 as i64);
    ctx.tf_32x32_block_split_flag[idx] = if low_i32(14 * block_error as i64) >= low_i32(16 * sum as i64) {
        1
    } else {
        0
    };
}

/// Hands the displacement of a whole 64x64 block to its four quarters, none
/// of which is split.
pub fn convert_64x64_info_to_32x32_info_mvs(
    tf_64x64_mv_x: i16,
    tf_64x64_mv_y: i16,
    tf_32x32_mv_x: &mut [i16; 4],
    tf_32x32_mv_y: &mut [i16; 4],
    tf_32x32_block_split_flag: &mut [i32; 4],
    tf_16x16_block_split_flag: &mut [[i32; 4]; 4],
)
    ensures
        forall|i: int| 0 <= i < 4 ==> #[trigger] final(tf_32x32_mv_x)@[i] == tf_64x64_mv_x,
        forall|i: int| 0 <= i < 4 ==> #[trigger] final(tf_32x32_mv_y)@[i] == tf_64x64_mv_y,
        forall|i: int| 0 <= i < 4 ==> #[trigger] final(tf_32x32_block_split_flag)@[i] == 0,
        forall|i: int, j: int|
            0 <= i < 4 && 0 <= j < 4 ==> #[trigger] final(tf_16x16_block_split_flag)@[i][j] == 0,
{
    *tf_32x32_mv_x = [tf_64x64_mv_x; 4];
    *tf_32x32_mv_y = [tf_64x64_mv_y; 4];
    *tf_32x32_block_split_flag = [0; 4];
    *tf_16x16_block_split_flag = [[0; 4]; 4];
}

/// Row and column of each 16x16 block of a 64x64 block.
pub const SUBBLOCK_XY_16X16: [[u32; 2]; 16] = [
    [0, 0], [0, 1], [0, 2], [0, 3],
    [1, 0], [1, 1], [1, 2], [1, 3],
    [2, 0], [2, 1], [2, 2], [2, 3],
    [3, 0], [3, 1], [3, 2], [3, 3],
];

/// The 16x16 blocks of each 32x32 block.
pub const IDX_32X32_TO_IDX_16X16: [[u32; 4]; 4] = [
    [0, 1, 4, 5], [2, 3, 6, 7], [8, 9, 12, 13], [10, 11, 14, 15],
];

/// Row and column of each 8x8 block of a 64x64 block.
pub const SUBBLOCK_XY_8X8: [[u32; 2]; 64] = [
    [0, 0], [0, 1], [0, 2], [0, 3], [0, 4], [0, 5], [0, 6], [0, 7],
    [1, 0], [1, 1], [1, 2], [1, 3], [1, 4], [1, 5], [1, 6], [1, 7],
    [2, 0], [2, 1], [2, 2], [2, 3], [2, 4], [2, 5], [2, 6], [2, 7],
    [3, 0], [3, 1], [3, 2], [3, 3], [3, 4], [3, 5], [3, 6], [3, 7],
    [4, 0], [4, 1], [4, 2], [4, 3], [4, 4], [4, 5], [4, 6], [4, 7],
    [5, 0], [5, 1], [5, 2], [5, 3], [5, 4], [5, 5], [5, 6], [5, 7],
    [6, 0], [6, 1], [6, 2], [6, 3], [6, 4], [6, 5], [6, 6], [6, 7],
    [7, 0], [7, 1], [7, 2], [7, 3], [7, 4], [7, 5], [7, 6], [7, 7],
];

/// The 8x8 blocks of each 16x16 block of each 32x32 block.
pub const IDX_32X32_TO_IDX_8X8: [[[u32; 4]; 4]; 4] = [
    [[0, 1, 8, 9], [2, 3, 10, 11], [16, 17, 24, 25], [18, 19, 26, 27]],
    [[4, 5, 12, 13], [6, 7, 14, 15], [20, 21, 28, 29], [22, 23, 30, 31]],
    [[32, 33, 40, 41], [34, 35, 42, 43], [48, 49, 56, 57], [50, 51, 58, 59]],
    [[36, 37, 44, 45], [38, 39, 46, 47], [52, 53, 60, 61], [54, 55, 62, 63]],
];

/// Column and row of a 32x32 block, in units of its size.
pub fn subpel_idx_32x32(idx_32x32: u32) -> (r: (u32, u32))
    ensures
        r.0 == idx_32x32 % 2,
        r.1 == idx_32x32 / 2,
{
    (idx_32x32 % 2, idx_32x32 / 2)
}

/// Column and row of a 16x16 block of a 32x32 block, in units of its size.
pub fn subpel_idx_16x16(idx_32x32: usize, idx_16x16: usize) -> (r: (u32, u32))
    requires
        idx_32x32 < 4,
        idx_16x16 < 4,
    ensures
        r.0 == 2 * (idx_32x32 % 2) + idx_16x16 % 2,
        r.1 == 2 * (idx_32x32 / 2) + idx_16x16 / 2,
        r.0 < 4,
        r.1 < 4,
{
    assert(idx_32x32 == 0 || idx_32x32 == 1 || idx_32x32 == 2 || idx_32x32 == 3);
    assert(idx_16x16 == 0 || idx_16x16 == 1 || idx_16x16 == 2 || idx_16x16 == 3);
    let pu_index: usize = IDX_32X32_TO_IDX_16X16[idx_32x32][idx_16x16] as usize;
    (SUBBLOCK_XY_16X16[pu_index][1], SUBBLOCK_XY_16X16[pu_index][0])
}

proof fn lemma_8x8_table(a: int, b: int, c: int)
    requires
        0 <= a < 4,
        0 <= b < 4,
        0 <= c < 4,
    ensures
        IDX_32X32_TO_IDX_8X8[a][b][c] == 8 * (4 * (a / 2) + 2 * (b / 2) + c / 2) + 4 * (a % 2) + 2 * (b % 2) + c % 2,
{
    assert(a == 0 || a == 1 || a == 2 || a == 3);
    assert(b == 0 || b == 1 || b == 2 || b == 3);
    assert(c == 0 || c == 1 || c == 2 || c == 3);
}

proof fn lemma_xy8(i: int)
    requires
        0 <= i < 64,
    ensures
        SUBBLOCK_XY_8X8[i][0] == i / 8,
        SUBBLOCK_XY_8X8[i][1] == i % 8,
{
}

/// Column and row of an 8x8 block of a 16x16 block of a 32x32 block, in units
/// of its size.
pub fn subpel_idx_8x8(idx_32x32: usize, idx_16x16: usize, idx_8x8: usize) -> (r: (u32, u32))
    requires
        idx_32x32 < 4,
        idx_16x16 < 4,
        idx_8x8 < 4,
    ensures
        r.0 == 4 * (idx_32x32 % 2) + 2 * (idx_16x16 % 2) + idx_8x8 % 2,
        r.1 == 4 * (idx_32x32 / 2) + 2 * (idx_16x16 / 2) + idx_8x8 / 2,
        r.0 < 8,
        r.1 < 8,
{
    proof {
        lemma_8x8_table(idx_32x32 as int, idx_16x16 as int, idx_8x8 as int);
    }
    let pu_index: usize = IDX_32X32_TO_IDX_8X8[idx_32x32][idx_16x16][idx_8x8] as usize;
    proof {
        lemma_xy8(pu_index as int);
    }
    (SUBBLOCK_XY_8X8[pu_index][1], SUBBLOCK_XY_8X8[pu_index][0])
}

/// Where the planes of a block start, in the frame and in the prediction.
#[derive(Debug, Clone, Copy, PartialEq, Eq)]
pub struct TfBlockOffsets {
    pub src: [usize; 3],
    pub block: [usize; 3],
}

/// Start of the plane of a block.
pub open spec fn plane_start(row: int, col: int, w: int, h: int, stride: int) -> int {
    (row * h) * stride + col * w
}

fn start_of(row: usize, col: usize, w: usize, h: usize, stride: usize) -> (r: usize)
    requires
        plane_start(row as int, col as int, w as int, h as int, stride as int) <= usize::MAX,
    ensures
        r == plane_start(row as int, col as int, w as int, h as int, stride as int),
{
    proof {
        assert(stride == 0 ==> (row * h) * stride == 0) by (nonlinear_arith);
        lemma_mul_nonnegative(row as int, h as int);
        lemma_mul_nonnegative(row * h, stride as int);
        lemma_mul_nonnegative(col as int, w as int);
        if stride > 0 {
            lemma_mul_inequality(1, stride as int, row * h);
            vstd::arithmetic::mul::lemma_mul_is_commutative(stride as int, row * h);
        }
    }
    if stride == 0 {
        col * w
    } else {
        (row * h) * stride + col * w
    }
}

/// Where the planes of a block start.
pub fn apply_filtering_block_plane_wise_offsets(
    block_row: usize,
    block_col: usize,
    stride: &[usize; 3],
    stride_pred: &[usize; 3],
    block_width: usize,
    block_height: usize,
    ss_x: u32,
    ss_y: u32,
) -> (r: TfBlockOffsets)
    requires
        ss_x < 32,
        ss_y < 32,
        ({
            let cw = chroma(block_width as int, ss_x as int);
            let ch = chroma(block_height as int, ss_y as int);
            let row = block_row as int;
            let col = block_col as int;
            &&& plane_start(row, col, block_width as int, block_height as int, stride[0] as int) <= usize::MAX
            &&& plane_start(row, col, cw, ch, stride[1] as int) <= usize::MAX
            &&& plane_start(row, col, cw, ch, stride[2] as int) <= usize::MAX
            &&& plane_start(row, col, block_width as int, block_height as int, stride_pred[0] as int) <= usize::MAX
            &&& plane_start(row, col, cw, ch, stride_pred[1] as int) <= usize::MAX
            &&& plane_start(row, col, cw, ch, stride_pred[2] as int) <= usize::MAX
        }),
    ensures
        ({
            let cw = chroma(block_width as int, ss_x as int);
            let ch = chroma(block_height as int, ss_y as int);
            let row = block_row as int;
            let col = block_col as int;
            &&& r.src[0] == plane_start(row, col, block_width as int, block_height as int, stride[0] as int)
            &&& r.src[1] == plane_start(row, col, cw, ch, stride[1] as int)
            &&& r.src[2] == plane_start(row, col, cw, ch, stride[2] as int)
            &&& r.block[0] == plane_start(row, col, block_width as int, block_height as int, stride_pred[0] as int)
            &&& r.block[1] == plane_start(row, col, cw, ch, stride_pred[1] as int)
            &&& r.block[2] == plane_start(row, col, cw, ch, stride_pred[2] as int)
        }),
{
    let ch_h: usize = shr_usize(block_height, ss_y);
    let ch_w: usize = shr_usize(block_width, ss_x);
    TfBlockOffsets {
        src: [
            start_of(block_row, block_col, block_width, block_height, stride[0]),
            start_of(block_row, block_col, ch_w, ch_h, stride[1]),
            start_of(block_row, block_col, ch_w, ch_h, stride[2]),
        ],
        block: [
            start_of(block_row, block_col, block_width, block_height, stride_pred[0]),
            start_of(block_row, block_col, ch_w, ch_h, stride_pred[1]),
            start_of(block_row, block_col, ch_w, ch_h, stride_pred[2]),
        ],
    }
}

/// A prediction of a block.
#[derive(Debug, Clone, Copy, PartialEq, Eq, Structural)]
pub struct TfPredictionRequest {
    pub bsize: u32,
    /// Place in the frame.
    pub pu_origin_x: u16,
    pub pu_origin_y: u16,
    /// Place in the 64x64 block.
    pub local_origin_x: u16,
    pub local_origin_y: u16,
    pub mv_x: i16,
    pub mv_y: i16,
    /// Size in units of four samples.
    pub mi_size: i32,
}

/// Units of four samples.
pub const MI_SIZE: i32 = 4;

/// `log2` of [`MI_SIZE`].
pub const MI_SIZE_LOG2: u32 = 2;

/// Distances of a block to the frame edges, in eighths of a sample; towards
/// the top and the left they count down.
#[derive(Debug, Clone, Copy, PartialEq, Eq, Structural)]
pub struct MbEdges {
    pub top: i32,
    pub bottom: i32,
    pub left: i32,
    pub right: i32,
}

/// Distances of a block to the frame edges.
pub fn mb_edges(
    pu_origin_x: u16,
    pu_origin_y: u16,
    mi_size_wide: i32,
    mi_size_high: i32,
    mi_cols: i32,
    mi_rows: i32,
) -> (r: MbEdges)
    requires
        0 <= mi_size_wide <= 32,
        0 <= mi_size_high <= 32,
        0 <= mi_cols <= 0x3ff_0000,
        0 <= mi_rows <= 0x3ff_0000,
    ensures
        r.top == -32 * (pu_origin_y / 4),
        r.left == -32 * (pu_origin_x / 4),
        r.bottom == 32 * (mi_rows - mi_size_high - pu_origin_y / 4),
        r.right == 32 * (mi_cols - mi_size_wide - pu_origin_x / 4),
{
    let mirow: i32 = (pu_origin_y / 4) as i32;
    let micol: i32 = (pu_origin_x / 4) as i32;
    MbEdges {
        top: -(mirow * 32),
        bottom: (mi_rows - mi_size_high - mirow) * 32,
        left: -(micol * 32),
        right: (mi_cols - mi_size_wide - micol) * 32,
    }
}

/// The prediction of a whole 64x64 block.
pub fn tf_64x64_inter_prediction_request(
    sb_origin_x: u32,
    sb_origin_y: u32,
    tf_64x64_mv_x: i16,
    tf_64x64_mv_y: i16,
) -> (r: TfPredictionRequest)
    ensures
        r == request(64, 0, 0, tf_64x64_mv_x, tf_64x64_mv_y, sb_origin_x as int, sb_origin_y as int),
{
    TfPredictionRequest {
        bsize: 64,
        pu_origin_x: low_u16(sb_origin_x),
        pu_origin_y: low_u16(sb_origin_y),
        local_origin_x: 0,
        local_origin_y: 0,
        mv_x: tf_64x64_mv_x,
        mv_y: tf_64x64_mv_y,
        mi_size: 16,
    }
}

/// The prediction of a block at column `x` and row `y`, in units of its size.
pub open spec fn request(
    bsize: int,
    x: int,
    y: int,
    mv_x: i16,
    mv_y: i16,
    sb_x: int,
    sb_y: int,
) -> TfPredictionRequest {
    TfPredictionRequest {
        bsize: bsize as u32,
        pu_origin_x: (sb_x % 0x1_0000 + x * bsize) as u16,
        pu_origin_y: (sb_y % 0x1_0000 + y * bsize) as u16,
        local_origin_x: (x * bsize) as u16,
        local_origin_y: (y * bsize) as u16,
        mv_x,
        mv_y,
        mi_size: (bsize / 4) as i32,
    }
}

fn request_of(bsize: u32, x: u32, y: u32, mv_x: i16, mv_y: i16, sb_x: u32, sb_y: u32) -> (r: TfPredictionRequest)
    requires
        bsize == 8 || bsize == 16 || bsize == 32,
        x * bsize < 64,
        y * bsize < 64,
        x < 8,
        y < 8,
        sb_x % 0x1_0000 <= 0xffc0,
        sb_y % 0x1_0000 <= 0xffc0,
    ensures
        r == request(bsize as int, x as int, y as int, mv_x, mv_y, sb_x as int, sb_y as int),
{
    let lx: u32 = x * bsize;
    let ly: u32 = y * bsize;
    TfPredictionRequest {
        bsize,
        pu_origin_x: low_u16(sb_x) + lx as u16,
        pu_origin_y: low_u16(sb_y) + ly as u16,
        local_origin_x: lx as u16,
        local_origin_y: ly as u16,
        mv_x,
        mv_y,
        mi_size: (bsize / 4) as i32,
    }
}

/// The displacements of the 8x8 blocks, and which 16x16 blocks use them.
pub struct FineMotion {
    pub split: [[i32; 4]; 4],
    pub mv_x: [i16; 64],
    pub mv_y: [i16; 64],
}

/// The prediction of 8x8 block `k` of a 16x16 block.
pub open spec fn request_8x8(fine: FineMotion, idx: int, i: int, k: int, sb_x: int, sb_y: int) -> TfPredictionRequest {
    request(
        8,
        4 * (idx % 2) + 2 * (i % 2) + k % 2,
        4 * (idx / 2) + 2 * (i / 2) + k / 2,
        fine.mv_x[idx * 16 + 4 * i + k],
        fine.mv_y[idx * 16 + 4 * i + k],
        sb_x,
        sb_y,
    )
}

/// The predictions of 16x16 block `i`: one, or four where it is split.
pub open spec fn quarter_requests(
    ctx: TfKernelCtx,
    fine: FineMotion,
    idx: int,
    i: int,
    sb_x: int,
    sb_y: int,
) -> Seq<TfPredictionRequest> {
    if fine.split[idx][i] != 0 {
        seq![
            request_8x8(fine, idx, i, 0, sb_x, sb_y),
            request_8x8(fine, idx, i, 1, sb_x, sb_y),
            request_8x8(fine, idx, i, 2, sb_x, sb_y),
            request_8x8(fine, idx, i, 3, sb_x, sb_y),
        ]
    } else {
        seq![
            request(
                16,
                2 * (idx % 2) + i % 2,
                2 * (idx / 2) + i / 2,
                ctx.tf_16x16_mv_x[idx * 4 + i],
                ctx.tf_16x16_mv_y[idx * 4 + i],
                sb_x,
                sb_y,
            ),
        ]
    }
}

/// The predictions of the first `n` quarters of a 32x32 block.
pub open spec fn quarters(
    ctx: TfKernelCtx,
    fine: FineMotion,
    idx: int,
    n: int,
    sb_x: int,
    sb_y: int,
) -> Seq<TfPredictionRequest>
    decreases n,
{
    if n <= 0 {
        Seq::empty()
    } else {
        quarters(ctx, fine, idx, n - 1, sb_x, sb_y) + quarter_requests(ctx, fine, idx, n - 1, sb_x, sb_y)
    }
}

/// The predictions of a 32x32 block: one, or those of its quarters.
pub open spec fn requests(
    ctx: TfKernelCtx,
    fine: FineMotion,
    idx: int,
    sb_x: int,
    sb_y: int,
) -> Seq<TfPredictionRequest> {
    if is_split(ctx, idx) {
        quarters(ctx, fine, idx, 4, sb_x, sb_y)
    } else {
        seq![
            request(32, idx % 2, idx / 2, ctx.tf_32x32_mv_x[idx], ctx.tf_32x32_mv_y[idx], sb_x, sb_y),
        ]
    }
}

/// The predictions a 32x32 block asks for.
pub fn tf_32x32_inter_prediction_requests(
    ctx: &TfKernelCtx,
    tf_16x16_block_split_flag: &[[i32; 4]; 4],
    tf_8x8_mv_x: &[i16; 64],
    tf_8x8_mv_y: &[i16; 64],
    idx_32x32: usize,
    sb_origin_x: u32,
    sb_origin_y: u32,
) -> (out: Vec<TfPredictionRequest>)
    requires
        idx_32x32 < 4,
        sb_origin_x % 0x1_0000 <= 0xffc0,
        sb_origin_y % 0x1_0000 <= 0xffc0,
    ensures
        out@ == requests(
            *ctx,
            (FineMotion { split: *tf_16x16_block_split_flag, mv_x: *tf_8x8_mv_x, mv_y: *tf_8x8_mv_y }),
            idx_32x32 as int,
            sb_origin_x as int,
            sb_origin_y as int,
        ),
{
    let ghost fine = FineMotion { split: *tf_16x16_block_split_flag, mv_x: *tf_8x8_mv_x, mv_y: *tf_8x8_mv_y };
    let ghost idx = idx_32x32 as int;
    let ghost sx = sb_origin_x as int;
    let ghost sy = sb_origin_y as int;
    let mut out: Vec<TfPredictionRequest> = Vec::new();
    if ctx.tf_32x32_block_split_flag[idx_32x32] != 0 {
        let mut i: usize = 0;
        while i < 4
            invariant
                i <= 4,
                idx == idx_32x32,
                idx_32x32 < 4,
                sx == sb_origin_x,
                sy == sb_origin_y,
                sb_origin_x % 0x1_0000 <= 0xffc0,
                sb_origin_y % 0x1_0000 <= 0xffc0,
                fine == (FineMotion { split: *tf_16x16_block_split_flag, mv_x: *tf_8x8_mv_x, mv_y: *tf_8x8_mv_y }),
                out@ == quarters(*ctx, fine, idx, i as int, sx, sy),
            decreases 4 - i,
        {
            let ghost before = out@;
            if tf_16x16_block_split_flag[idx_32x32][i] != 0 {
                let mut k: usize = 0;
                while k < 4
                    invariant
                        k <= 4,
                        i < 4,
                        idx == idx_32x32,
                        idx_32x32 < 4,
                        sx == sb_origin_x,
                        sy == sb_origin_y,
                        sb_origin_x % 0x1_0000 <= 0xffc0,
                        sb_origin_y % 0x1_0000 <= 0xffc0,
                        fine.split[idx][i as int] != 0,
                        fine == (FineMotion {
                            split: *tf_16x16_block_split_flag,
                            mv_x: *tf_8x8_mv_x,
                            mv_y: *tf_8x8_mv_y,
                        }),
                        out@ == before + quarter_requests(*ctx, fine, idx, i as int, sx, sy).take(k as int),
                    decreases 4 - k,
                {
                    let (x, y) = subpel_idx_8x8(idx_32x32, i, k);
                    let n: usize = idx_32x32 * 16 + 4 * i + k;
                    out.push(request_of(8, x, y, tf_8x8_mv_x[n], tf_8x8_mv_y[n], sb_origin_x, sb_origin_y));
                    proof {
                        let all = quarter_requests(*ctx, fine, idx, i as int, sx, sy);
                        assert(out@.last() == request_8x8(fine, idx, i as int, k as int, sx, sy));
                        assert(all[k as int] == request_8x8(fine, idx, i as int, k as int, sx, sy)) by {
                            assert(k == 0 || k == 1 || k == 2 || k == 3);
                        }
                        assert(all.take(k + 1) =~= all.take(k as int).push(all[k as int]));
                        assert(out@ =~= before + all.take(k + 1));
                    }
                    k = k + 1;
                }
                proof {
                    let all = quarter_requests(*ctx, fine, idx, i as int, sx, sy);
                    assert(all.take(4) =~= all);
                }
            } else {
                let (x, y) = subpel_idx_16x16(idx_32x32, i);
                let n: usize = idx_32x32 * 4 + i;
                out.push(
                    request_of(16, x, y, ctx.tf_16x16_mv_x[n], ctx.tf_16x16_mv_y[n], sb_origin_x, sb_origin_y),
                );
                proof {
                    assert(out@ =~= before + quarter_requests(*ctx, fine, idx, i as int, sx, sy));
                }
            }
            i = i + 1;
        }
    } else {
        let (x, y) = subpel_idx_32x32(idx_32x32 as u32);
        out.push(
            request_of(
                32,
                x,
                y,
                ctx.tf_32x32_mv_x[idx_32x32],
                ctx.tf_32x32_mv_y[idx_32x32],
                sb_origin_x,
                sb_origin_y,
            ),
        );
        assert(out@ =~= requests(*ctx, fine, idx, sx, sy));
    }
    out
}

/// Samples of the first `n` predictions of a list.
pub open spec fn area(rs: Seq<TfPredictionRequest>, n: int) -> int
    decreases n,
{
    if n <= 0 {
        0
    } else {
        area(rs, n - 1) + rs[n - 1].bsize * rs[n - 1].bsize
    }
}

/// A 32x32 block asks for one prediction, or for four to sixteen, and they
/// cover it: together they have its area.
pub proof fn requests_cover_the_block(ctx: TfKernelCtx, fine: FineMotion, idx: int, sb_x: int, sb_y: int)
    ensures
        ({
            let rs = requests(ctx, fine, idx, sb_x, sb_y);
            &&& area(rs, rs.len() as int) == 1024
            &&& if is_split(ctx, idx) {
                4 <= rs.len() <= 16
            } else {
                rs.len() == 1
            }
        }),
{
    reveal_with_fuel(area, 2);
    lemma_square(requests(ctx, fine, idx, sb_x, sb_y)[0].bsize as int);
    if is_split(ctx, idx) {
        lemma_quarter_area(ctx, fine, idx, 1, sb_x, sb_y);
        lemma_quarter_area(ctx, fine, idx, 2, sb_x, sb_y);
        lemma_quarter_area(ctx, fine, idx, 3, sb_x, sb_y);
        lemma_quarter_area(ctx, fine, idx, 4, sb_x, sb_y);
    }
}

proof fn lemma_square(b: int)
    ensures
        b == 8 ==> b * b == 64,
        b == 16 ==> b * b == 256,
        b == 32 ==> b * b == 1024,
{
    assert(b == 8 ==> b * b == 64) by (nonlinear_arith);
    assert(b == 16 ==> b * b == 256) by (nonlinear_arith);
    assert(b == 32 ==> b * b == 1024) by (nonlinear_arith);
}

proof fn lemma_area_append(a: Seq<TfPredictionRequest>, b: Seq<TfPredictionRequest>, n: int)
    requires
        0 <= n <= b.len(),
    ensures
        area(a + b, a.len() + n) == area(a, a.len() as int) + area(b, n),
    decreases n,
{
    if n > 0 {
        lemma_area_append(a, b, n - 1);
        assert((a + b)[a.len() + n - 1] == b[n - 1]);
    } else {
        lemma_area_prefix(a, b, a.len() as int);
    }
}

proof fn lemma_area_prefix(a: Seq<TfPredictionRequest>, b: Seq<TfPredictionRequest>, n: int)
    requires
        n <= a.len(),
    ensures
        area(a + b, n) == area(a, n),
    decreases n,
{
    if n > 0 {
        lemma_area_prefix(a, b, n - 1);
        assert((a + b)[n - 1] == a[n - 1]);
    }
}

proof fn lemma_quarter_area(ctx: TfKernelCtx, fine: FineMotion, idx: int, n: int, sb_x: int, sb_y: int)
    requires
        1 <= n,
    ensures
        ({
            let a = quarters(ctx, fine, idx, n - 1, sb_x, sb_y);
            let b = quarters(ctx, fine, idx, n, sb_x, sb_y);
            &&& area(b, b.len() as int) == area(a, a.len() as int) + 256
            &&& a.len() + 1 <= b.len() <= a.len() + 4
        }),
{
    let a = quarters(ctx, fine, idx, n - 1, sb_x, sb_y);
    let q = quarter_requests(ctx, fine, idx, n - 1, sb_x, sb_y);
    reveal_with_fuel(area, 5);
    lemma_square(q[0].bsize as int);
    lemma_square(q[1].bsize as int);
    lemma_square(q[2].bsize as int);
    lemma_square(q[3].bsize as int);
    lemma_area_append(a, q, q.len() as int);
}

/// The grid of filter blocks of a frame.
#[derive(Debug, Clone, Copy, PartialEq, Eq)]
pub struct TfBlockGrid {
    pub blk_cols: u32,
    pub blk_rows: u32,
    pub blk_width_ch: u32,
    pub blk_height_ch: u32,
    /// Row distances of the predictions.
    pub stride_pred: [u32; 3],
}

/// The grid of filter blocks of a frame. Both chroma planes of a prediction
/// have rows of the chroma width.
pub fn tf_block_grid(width: u32, height: u32, ss_x: u32, ss_y: u32) -> (r: TfBlockGrid)
    requires
        width <= 0xffff_ffc0,
        height <= 0xffff_ffc0,
        ss_x < 32,
        ss_y < 32,
    ensures
        r.blk_cols == (width + 63) / 64,
        r.blk_rows == (height + 63) / 64,
        r.blk_width_ch == shr_int(64, ss_x as nat),
        r.blk_height_ch == shr_int(64, ss_y as nat),
        r.stride_pred[0] == 64,
        r.stride_pred[1] == r.blk_width_ch,
        r.stride_pred[2] == r.blk_width_ch,
{
    let blk_width_ch: u32 = shr_u32(64, ss_x);
    let blk_height_ch: u32 = shr_u32(64, ss_y);
    TfBlockGrid {
        blk_cols: (width + 63) / 64,
        blk_rows: (height + 63) / 64,
        blk_width_ch,
        blk_height_ch,
        stride_pred: [64, blk_width_ch, blk_width_ch],
    }
}

/// What is padded and reduced again once a frame has been filtered.
#[derive(Debug, Clone, Copy, PartialEq, Eq, Structural)]
pub struct RepadPlan {
    /// The frame does not fill whole 8x8 blocks, so these are completed
    /// first.
    pub complete_blocks: bool,
    /// The chroma borders are rebuilt as well.
    pub chroma: bool,
    pub chroma_width: usize,
    pub chroma_height: usize,
    pub chroma_border_x: usize,
    pub chroma_border_y: usize,
}

/// What to pad again once a frame has been filtered. The reduced planes are
/// always rebuilt from it.
pub fn pad_and_decimate_filtered_pic(
    subsampling_x: u32,
    subsampling_y: u32,
    pad_right: usize,
    pad_bottom: usize,
    chroma_lvl: bool,
    width: usize,
    height: usize,
    border: usize,
) -> (r: RepadPlan)
    requires
        pad_right <= width,
        pad_bottom <= height,
        subsampling_x < 32,
        subsampling_y < 32,
    ensures
        r.complete_blocks == ((width - pad_right) % 8 != 0 || (height - pad_bottom) % 8 != 0),
        r.chroma == chroma_lvl,
        r.chroma_width == shr_int(width as int, subsampling_x as nat),
        r.chroma_height == shr_int(height as int, subsampling_y as nat),
        r.chroma_border_x == shr_int(border as int, subsampling_x as nat),
        r.chroma_border_y == shr_int(border as int, subsampling_y as nat),
{
    RepadPlan {
        complete_blocks: (width - pad_right) % 8 != 0 || (height - pad_bottom) % 8 != 0,
        chroma: chroma_lvl,
        chroma_width: shr_usize(width, subsampling_x),
        chroma_height: shr_usize(height, subsampling_y),
        chroma_border_x: shr_usize(border, subsampling_x),
        chroma_border_y: shr_usize(border, subsampling_y),
    }
}

/// What a copy of the unfiltered frame keeps.
#[derive(Debug, Clone, Copy, PartialEq, Eq, Structural)]
pub struct SavedSrcPicPlan {
    pub copy_luma: bool,
    pub copy_chroma: bool,
    pub width_y: u32,
    pub height_y: u32,
    pub width_uv: u32,
    pub height_uv: u32,
    pub dest_border: u32,
    /// High and low bits are kept apart.
    pub dest_split_mode: bool,
}

/// The colour format without chroma subsampling.
pub const YUV444: u32 = 3;

/// The colour format with horizontal chroma subsampling.
pub const YUV422: u32 = 2;

/// What a copy of the unfiltered frame keeps: always luma, chroma on demand.
pub fn plan_saved_src_pic(
    all_planes: bool,
    width: u32,
    height: u32,
    color_format: u32,
    encoder_bit_depth: u32,
) -> (r: SavedSrcPicPlan)
    ensures
        r.copy_luma,
        r.copy_chroma == all_planes,
        r.width_y == width,
        r.height_y == height,
        r.width_uv == (if color_format != YUV444 {
            width / 2
        } else {
            width
        }),
        r.height_uv == (if color_format < YUV422 {
            height / 2
        } else {
            height
        }),
        r.dest_border == 0,
        r.dest_split_mode == (encoder_bit_depth > 8),
{
    SavedSrcPicPlan {
        copy_luma: true,
        copy_chroma: all_planes,
        width_y: width,
        height_y: height,
        width_uv: if color_format != YUV444 {
            width / 2
        } else {
            width
        },
        height_uv: if color_format < YUV422 {
            height / 2
        } else {
            height
        },
        dest_border: 0,
        dest_split_mode: encoder_bit_depth > 8,
    }
}

/// How much worse a block does as a whole than in quarters, in percent and
/// rounded toward zero; both errors count as at least one.
pub open spec fn whole_block_deviation(sad_64x64: int, sum_32x32: int) -> int {
    let d32 = max_int(sum_32x32, 1);
    div_trunc((max_int(sad_64x64, 1) - d32) * 100, d32)
}

/// One where a block is predicted as a whole: it does not do much worse than
/// in quarters, whose errors are summed in 32 bits.
pub fn tf_use_64x64_pred(p_best_sad_64x64: u32, p_best_sad_32x32: &[u32; 4], tf_use_pred_64x64_only_th: i64) -> (r: i8)
    ensures
        r == if whole_block_deviation(
            p_best_sad_64x64 as int,
            (p_best_sad_32x32[0] + p_best_sad_32x32[1] + p_best_sad_32x32[2] + p_best_sad_32x32[3]) % 0x1_0000_0000,
        ) < tf_use_pred_64x64_only_th {
            1i8
        } else {
            0i8
        },
{
    let sum: u32 = low_u32(
        p_best_sad_32x32[0] as u64 + p_best_sad_32x32[1] as u64 + p_best_sad_32x32[2] as u64
            + p_best_sad_32x32[3] as u64,
    );
    let d32: i64 = if sum > 1 {
        sum as i64
    } else {
        1
    };
    let d64: i64 = if p_best_sad_64x64 > 1 {
        p_best_sad_64x64 as i64
    } else {
        1
    };
    if ((d64 - d32) * 100) / d32 < tf_use_pred_64x64_only_th {
        1
    } else {
        0
    }
}

} // verus!
