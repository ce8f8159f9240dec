//! Measures on source blocks, and the geometry of propagating a block's cost
//! onto the grid of its reference.

use vstd::arithmetic::div_mod::{lemma_div_is_ordered, lemma_fundamental_div_mod};
use vstd::arithmetic::mul::{
    lemma_mul_inequality, lemma_mul_is_commutative, lemma_mul_nonnegative, lemma_mul_upper_bound,
};
use vstd::prelude::*;

use crate::arith::{
    lemma_raster_bounds, lemma_raster_index, lemma_raster_split, lemma_total_bounds, total, wrap_i64,
};
use crate::types::BlockSize;

verus! {

/// A `w` by `h` block with row distance `stride` lies inside a buffer of
/// `len` samples.
pub open spec fn block_inside(len: int, stride: int, w: int, h: int) -> bool {
    w > 0 && h > 0 && (h - 1) * stride + w <= len
}

/// Sample `i` of a block, counted row by row.
pub open spec fn sample(buf: Seq<u8>, stride: int, w: int, i: int) -> int {
    buf[(i / w) * stride + i % w] as int
}

/// Differences from a reference level.
pub open spec fn about(buf: Seq<u8>, stride: int, w: int, level: int) -> spec_fn(int) -> int {
    |i: int| sample(buf, stride, w, i) - level
}

/// Squared differences from a reference level.
pub open spec fn square_about(buf: Seq<u8>, stride: int, w: int, level: int) -> spec_fn(int) -> int {
    |i: int| (sample(buf, stride, w, i) - level) * (sample(buf, stride, w, i) - level)
}

/// Sum of squares minus the square of the sum over the count: `n` times the
/// variance, up to rounding.
pub open spec fn scatter(buf: Seq<u8>, stride: int, w: int, n: int, level: int) -> int {
    let sum = total(about(buf, stride, w, level), n);
    total(square_about(buf, stride, w, level), n) - (sum * sum) / n
}

/// `x / n`, to the nearest integer.
pub open spec fn rounded_quotient(x: int, n: int) -> int {
    (x + n / 2) / n
}

proof fn lemma_square_range(d: int, m: int)
    requires
        -m <= d <= m,
    ensures
        0 <= d * d <= m * m,
{
    if d >= 0 {
        lemma_mul_upper_bound(d, m, d, m);
        lemma_mul_nonnegative(d, d);
    } else {
        lemma_mul_upper_bound(-d, m, -d, m);
        lemma_mul_nonnegative(-d, -d);
        vstd::arithmetic::mul::lemma_mul_cancels_negatives(d, d);
    }
}

proof fn lemma_sample_read(len: int, stride: int, w: int, h: int, r: int, c: int)
    requires
        block_inside(len, stride, w, h),
        stride >= 0,
        0 <= r < h,
        0 <= c < w,
    ensures
        0 <= r * stride <= r * stride + c < len,
        (r * w + c) / w == r,
        (r * w + c) % w == c,
        0 <= r * w + c < w * h,
{
    lemma_raster_index(r, c, w);
    lemma_raster_bounds(r, c, w, h);
    lemma_mul_inequality(r, h - 1, stride);
    lemma_mul_nonnegative(r, stride);
}

/// Sum of the differences from `level`, and of their squares.
fn moments(buf: &[u8], stride: usize, w: usize, h: usize, level: i32) -> (r: (i64, u64))
    requires
        block_inside(buf@.len() as int, stride as int, w as int, h as int),
        w <= 128,
        h <= 128,
        0 <= level <= 255,
    ensures
        r.0 == total(about(buf@, stride as int, w as int, level as int), w * h),
        r.1 == total(square_about(buf@, stride as int, w as int, level as int), w * h),
        -0x400_000 <= r.0 <= 0x400_000,
        r.1 <= 0x4000_0000,
{
    let ghost f = about(buf@, stride as int, w as int, level as int);
    let ghost g = square_about(buf@, stride as int, w as int, level as int);
    let len: usize = buf.len();
    let mut sum: i64 = 0;
    let mut sse: u64 = 0;
    let mut row: usize = 0;
    proof {
        lemma_mul_upper_bound(w as int, 128, h as int, 128);
    }
    while row < h
        invariant
            row <= h,
            len == buf@.len(),
            w <= 128,
            h <= 128,
            w * h <= 16384,
            0 <= level <= 255,
            block_inside(buf@.len() as int, stride as int, w as int, h as int),
            f == about(buf@, stride as int, w as int, level as int),
            g == square_about(buf@, stride as int, w as int, level as int),
            sum == total(f, row * w),
            sse == total(g, row * w),
            -255 * (row * w) <= sum <= 255 * (row * w),
            sse <= 65025 * (row * w),
            row * w <= w * h,
        decreases h - row,
    {
        let mut col: usize = 0;
        proof {
            lemma_sample_read(buf@.len() as int, stride as int, w as int, h as int, row as int, 0);
            lemma_raster_bounds(row as int, 0, w as int, h as int);
        }
        let base: usize = row * stride;
        while col < w
            invariant
                row < h,
                col <= w,
                len == buf@.len(),
                w <= 128,
                h <= 128,
                w * h <= 16384,
                0 <= level <= 255,
                block_inside(buf@.len() as int, stride as int, w as int, h as int),
                f == about(buf@, stride as int, w as int, level as int),
                g == square_about(buf@, stride as int, w as int, level as int),
                base == row * stride,
                row * w + w <= w * h,
                sum == total(f, row * w + col),
                sse == total(g, row * w + col),
                -255 * (row * w + col) <= sum <= 255 * (row * w + col),
                sse <= 65025 * (row * w + col),
            decreases w - col,
        {
            proof {
                lemma_sample_read(buf@.len() as int, stride as int, w as int, h as int, row as int, col as int);
            }
            let diff: i32 = buf[base + col] as i32 - level;
            proof {
                lemma_square_range(diff as int, 255);
                assert(f(row * w + col) == diff);
                assert(g(row * w + col) == diff * diff);
            }
            sum = sum + diff as i64;
            sse = sse + (diff * diff) as u64;
            col = col + 1;
        }
        proof {
            assert((row + 1) * w == row * w + w) by {
                vstd::arithmetic::mul::lemma_mul_is_distributive_add_other_way(w as int, row as int, 1);
            }
        }
        row = row + 1;
    }
    proof {
        lemma_mul_is_commutative(w as int, h as int);
    }
    (sum, sse)
}

/// `n * Q >= S^2` for `n` numbers with sum `S` and sum of squares `Q`.
proof fn lemma_mean_square(buf: Seq<u8>, stride: int, w: int, level: int, n: int)
    requires
        n >= 0,
    ensures
        total(about(buf, stride, w, level), n) * total(about(buf, stride, w, level), n) <= n * total(
            square_about(buf, stride, w, level),
            n,
        ),
        total(square_about(buf, stride, w, level), n) >= 0,
    decreases n,
{
    let f = about(buf, stride, w, level);
    let g = square_about(buf, stride, w, level);
    if n > 0 {
        lemma_mean_square(buf, stride, w, level, n - 1);
        let s = total(f, n - 1);
        let q = total(g, n - 1);
        let x = f(n - 1);
        let m = n - 1;
        assert(g(n - 1) == x * x);
        assert(x * x >= 0) by (nonlinear_arith);
        if m == 0 {
            assert(s == 0 && q == 0);
            assert((s + x) * (s + x) <= n * (q + x * x)) by (nonlinear_arith)
                requires
                    s == 0,
                    q == 0,
                    n == 1,
            ;
        } else {
            assert(q + m * (x * x) - 2 * (s * x) >= 0) by {
                assert(m * (q + m * (x * x) - 2 * (s * x)) >= (s - m * x) * (s - m * x)) by (nonlinear_arith)
                    requires
                        s * s <= m * q,
                ;
                assert((s - m * x) * (s - m * x) >= 0) by (nonlinear_arith);
                let t = q + m * (x * x) - 2 * (s * x);
                assert(t >= 0) by (nonlinear_arith)
                    requires
                        m * t >= 0,
                        m > 0,
                ;
            }
            assert((s + x) * (s + x) <= n * (q + x * x)) by (nonlinear_arith)
                requires
                    s * s <= m * q,
                    q + m * (x * x) - 2 * (s * x) >= 0,
                    n == m + 1,
            ;
        }
    }
}

proof fn lemma_scatter_range(buf: Seq<u8>, stride: int, w: int, n: int, level: int)
    requires
        n > 0,
    ensures
        0 <= scatter(buf, stride, w, n, level) <= total(square_about(buf, stride, w, level), n),
{
    let s = total(about(buf, stride, w, level), n);
    let q = total(square_about(buf, stride, w, level), n);
    lemma_mean_square(buf, stride, w, level, n);
    lemma_div_is_ordered(s * s, n * q, n);
    lemma_mul_is_commutative(n, q);
    vstd::arithmetic::div_mod::lemma_div_by_multiple(q, n);
    assert(s * s >= 0) by (nonlinear_arith);
    vstd::arithmetic::div_mod::lemma_div_pos_is_pos(s * s, n);
}

/// Per-sample variance of a block, measured about mid-grey and rounded.
pub fn get_perpixel_variance(buf: &[u8], stride: usize, bsize: BlockSize) -> (r: u32)
    requires
        block_inside(buf@.len() as int, stride as int, bsize.wide_spec(), bsize.high_spec()),
    ensures
        r == rounded_quotient(
            scatter(
                buf@,
                stride as int,
                bsize.wide_spec(),
                bsize.wide_spec() * bsize.high_spec(),
                128,
            ),
            bsize.wide_spec() * bsize.high_spec(),
        ),
{
    let w: usize = bsize.wide();
    let h: usize = bsize.high();
    let (sum, sse) = moments(buf, stride, w, h, 128);
    proof {
        lemma_mul_upper_bound(w as int, 128, h as int, 128);
        lemma_mul_inequality(1, w as int, h as int);
        lemma_square_range(sum as int, 0x400_000);
        lemma_scatter_range(buf@, stride as int, w as int, w * h, 128);
    }
    let n: i64 = (w * h) as i64;
    let var: i64 = sse as i64 - (sum * sum) / n;
    let per_pixel: i64 = (var + n / 2) / n;
    proof {
        lemma_div_is_ordered(0, var + n / 2, n as int);
        lemma_div_is_ordered(var + n / 2, 0x4000_4000, n as int);
        vstd::arithmetic::div_mod::lemma_div_is_ordered_by_denominator(0x4000_4000, 1, n as int);
    }
    per_pixel as u32
}

/// Per-sample variance of a block about its own rounded mean, and that mean.
pub fn get_mean_and_perpixel_variance(buf: &[u8], stride: usize, bsize: BlockSize) -> (r: (u32, u32))
    requires
        block_inside(buf@.len() as int, stride as int, bsize.wide_spec(), bsize.high_spec()),
    ensures
        r.1 == rounded_quotient(
            total(about(buf@, stride as int, bsize.wide_spec(), 0), bsize.wide_spec() * bsize.high_spec()),
            bsize.wide_spec() * bsize.high_spec(),
        ),
        r.0 == rounded_quotient(
            total(
                square_about(buf@, stride as int, bsize.wide_spec(), r.1 as int),
                bsize.wide_spec() * bsize.high_spec(),
            ),
            bsize.wide_spec() * bsize.high_spec(),
        ),
        r.1 <= 255,
{
    let w: usize = bsize.wide();
    let h: usize = bsize.high();
    let (sum, _sq) = moments(buf, stride, w, h, 0);
    proof {
        lemma_mul_upper_bound(w as int, 128, h as int, 128);
        lemma_mul_inequality(1, w as int, h as int);
        let f = about(buf@, stride as int, w as int, 0);
        assert forall|i: int| 0 <= i < w * h implies 0 <= #[trigger] f(i) <= 255 by {
            lemma_raster_split(i, w as int, h as int);
        }
        lemma_total_bounds(f, w * h, 0, 255);
    }
    let n: i64 = (w * h) as i64;
    let mean: i64 = (sum + n / 2) / n;
    proof {
        assert(255 * n + n / 2 < 256 * n);
        lemma_div_is_ordered(0, sum + n / 2, n as int);
        if mean >= 256 {
            lemma_fundamental_div_mod(sum + n / 2, n as int);
            lemma_mul_inequality(256, mean as int, n as int);
            lemma_mul_is_commutative(mean as int, n as int);
        }
    }
    let (_diff, sse) = moments(buf, stride, w, h, mean as i32);
    let var: i64 = (sse as i64 + n / 2) / n;
    proof {
        lemma_div_is_ordered(0, sse + n / 2, n as int);
        lemma_div_is_ordered(sse + n / 2, 0x4000_4000, n as int);
        vstd::arithmetic::div_mod::lemma_div_is_ordered_by_denominator(0x4000_4000, 1, n as int);
    }
    (var as u32, mean as u32)
}

/// Weight of the perceptual variance: a parabola in the block mean, 256 at
/// mid-grey.
pub fn perceptual_weight(mean: u32) -> (r: i32)
    requires
        mean <= 255,
    ensures
        r == ((16384 - (mean - 128) * (mean - 128)) * 256) / 16384,
        0 <= r <= 256,
{
    let centered: i32 = mean as i32 - 128;
    proof {
        lemma_square_range(centered as int, 128);
    }
    ((16384 - centered * centered) * 256) / 16384
}

proof fn lemma_shifted_sums(buf: Seq<u8>, stride: int, w: int, level: int, n: int)
    requires
        n >= 0,
    ensures
        total(about(buf, stride, w, level), n) == total(about(buf, stride, w, 0), n) - n * level,
        total(square_about(buf, stride, w, level), n) == total(square_about(buf, stride, w, 0), n) - 2 * (level
            * total(about(buf, stride, w, 0), n)) + n * (level * level),
    decreases n,
{
    let f0 = about(buf, stride, w, 0);
    let g0 = square_about(buf, stride, w, 0);
    if n > 0 {
        lemma_shifted_sums(buf, stride, w, level, n - 1);
        let x = sample(buf, stride, w, n - 1);
        let s = total(f0, n - 1);
        assert(f0(n - 1) == x);
        assert(g0(n - 1) == x * x);
        assert((x - level) * (x - level) == x * x - 2 * (level * x) + level * level) by (nonlinear_arith);
        assert((n - 1) * level + level == n * level) by (nonlinear_arith);
        assert((n - 1) * (level * level) + level * level == n * (level * level)) by (nonlinear_arith);
        assert(level * s + level * x == level * (s + x)) by (nonlinear_arith);
    } else {
        assert(n * level == 0 && n * (level * level) == 0 && level * 0 == 0) by (nonlinear_arith)
            requires
                n == 0,
        ;
    }
}

/// The reference level a variance is measured about does not matter, not even
/// to its rounding.
pub proof fn variance_ignores_its_reference(buf: Seq<u8>, stride: int, w: int, n: int, a: int, b: int)
    requires
        n > 0,
    ensures
        scatter(buf, stride, w, n, a) == scatter(buf, stride, w, n, b),
{
    lemma_scatter_at_zero(buf, stride, w, n, a);
    lemma_scatter_at_zero(buf, stride, w, n, b);
}

proof fn lemma_scatter_at_zero(buf: Seq<u8>, stride: int, w: int, n: int, level: int)
    requires
        n > 0,
    ensures
        scatter(buf, stride, w, n, level) == scatter(buf, stride, w, n, 0),
{
    let s = total(about(buf, stride, w, 0), n);
    lemma_shifted_sums(buf, stride, w, level, n);
    let k = n * (level * level) - 2 * (level * s);
    assert((s - n * level) * (s - n * level) == n * k + s * s) by (nonlinear_arith)
        requires
            k == n * (level * level) - 2 * (level * s),
    ;
    let q = (s * s) / n;
    let r = (s * s) % n;
    lemma_fundamental_div_mod(s * s, n);
    assert(n * k + s * s == (k + q) * n + r) by (nonlinear_arith)
        requires
            s * s == n * q + r,
    ;
    vstd::arithmetic::div_mod::lemma_fundamental_div_mod_converse(n * k + s * s, n, k + q, r);
}

/// Position of the cell of size `b` that `pos` falls into.
pub open spec fn floor_cell(pos: int, b: int) -> int {
    if pos < 0 {
        -(1 + (-pos - 1) / b)
    } else {
        pos / b
    }
}

/// Division that rounds down; nothing for a zero divisor.
pub fn round_floor(ref_pos: i32, bsize_pix: i32) -> (r: Option<i32>)
    requires
        ref_pos > i32::MIN,
    ensures
        bsize_pix == 0 <==> r is None,
        r is Some ==> r->0 == floor_cell(ref_pos as int, bsize_pix as int),
{
    if bsize_pix == 0 {
        return None;
    }
    if ref_pos < 0 {
        let m: i32 = -ref_pos - 1;
        proof {
            lemma_quotient_small(m as int, bsize_pix as int);
        }
        Some(-(1 + m / bsize_pix))
    } else {
        proof {
            lemma_quotient_small(ref_pos as int, bsize_pix as int);
        }
        Some(ref_pos / bsize_pix)
    }
}

proof fn lemma_quotient_small(x: int, b: int)
    requires
        x >= 0,
        b != 0,
    ensures
        -x <= x / b <= x,
{
    lemma_fundamental_div_mod(x, b);
    let q = x / b;
    let r = x % b;
    if b > 0 {
        vstd::arithmetic::div_mod::lemma_div_pos_is_pos(x, b);
        vstd::arithmetic::div_mod::lemma_div_nonincreasing(x, b);
    } else {
        assert(x == b * q + r);
        assert(r >= 0);
        assert(-x <= q <= 0) by (nonlinear_arith)
            requires
                x == b * q + r,
                0 <= r < -b,
                b < 0,
                x >= 0,
        ;
    }
}

/// For a positive size, the cell of a position is its quotient rounded down.
pub proof fn round_floor_is_floor_division(pos: int, b: int)
    requires
        b > 0,
    ensures
        floor_cell(pos, b) == pos / b,
        floor_cell(pos, b) * b <= pos < floor_cell(pos, b) * b + b,
{
    if pos < 0 {
        let m = -pos - 1;
        let q = m / b;
        let r = m % b;
        lemma_fundamental_div_mod(m, b);
        assert(pos == (-1 - q) * b + (b - 1 - r)) by (nonlinear_arith)
            requires
                m == -pos - 1,
                m == b * q + r,
        ;
        vstd::arithmetic::div_mod::lemma_fundamental_div_mod_converse(pos, b, -1 - q, b - 1 - r);
        lemma_fundamental_div_mod(pos, b);
    } else {
        lemma_fundamental_div_mod(pos, b);
    }
    lemma_mul_is_commutative(pos / b, b);
}

/// Where the grid cell lies, seen from the block that overlaps it.
#[derive(Debug, Clone, Copy, PartialEq, Eq, Structural)]
pub enum OverlapCorner {
    UpLeft,
    UpRight,
    DownLeft,
    DownRight,
}

impl OverlapCorner {
    /// The cell lies to the right.
    pub open spec fn right(self) -> bool {
        self is UpRight || self is DownRight
    }

    /// The cell lies below.
    pub open spec fn down(self) -> bool {
        self is DownLeft || self is DownRight
    }
}

/// Overlap along one axis of a cell and a block of the same size.
pub open spec fn overlap_1d(grid_pos: int, ref_pos: int, cell_after: bool, size: int) -> int {
    if cell_after {
        ref_pos + size - grid_pos
    } else {
        grid_pos + size - ref_pos
    }
}

/// The overlap of a block and a grid cell along one axis can be computed.
pub open spec fn overlap_fits(grid_pos: int, ref_pos: int, cell_after: bool, size: int) -> bool {
    &&& i32::MIN <= overlap_1d(grid_pos, ref_pos, cell_after, size) <= i32::MAX
    &&& if cell_after {
        ref_pos + size <= i32::MAX
    } else {
        grid_pos + size <= i32::MAX
    }
}

/// Area shared by a block and a grid cell that lies at the given corner;
/// negative products stand for a claimed overlap that is not there.
pub open spec fn overlap_area(
    grid_row: int,
    grid_col: int,
    ref_row: int,
    ref_col: int,
    corner: OverlapCorner,
    w: int,
    h: int,
) -> int {
    overlap_1d(grid_col, ref_col, corner.right(), w) * overlap_1d(grid_row, ref_row, corner.down(), h)
}

/// Area shared by a block and a grid cell.
pub fn get_overlap_area(
    grid_pos_row: i32,
    grid_pos_col: i32,
    ref_pos_row: i32,
    ref_pos_col: i32,
    corner: OverlapCorner,
    bsize: BlockSize,
) -> (r: i32)
    requires
        overlap_fits(grid_pos_col as int, ref_pos_col as int, corner.right(), bsize.wide_spec()),
        overlap_fits(grid_pos_row as int, ref_pos_row as int, corner.down(), bsize.high_spec()),
        i32::MIN <= overlap_area(
            grid_pos_row as int,
            grid_pos_col as int,
            ref_pos_row as int,
            ref_pos_col as int,
            corner,
            bsize.wide_spec(),
            bsize.high_spec(),
        ) <= i32::MAX,
    ensures
        r == overlap_area(
            grid_pos_row as int,
            grid_pos_col as int,
            ref_pos_row as int,
            ref_pos_col as int,
            corner,
            bsize.wide_spec(),
            bsize.high_spec(),
        ),
{
    let bw: i32 = bsize.wide() as i32;
    let bh: i32 = bsize.high() as i32;
    let (right, down) = match corner {
        OverlapCorner::UpLeft => (false, false),
        OverlapCorner::UpRight => (true, false),
        OverlapCorner::DownLeft => (false, true),
        OverlapCorner::DownRight => (true, true),
    };
    let width: i32 = if right {
        ref_pos_col + bw - grid_pos_col
    } else {
        grid_pos_col + bw - ref_pos_col
    };
    let height: i32 = if down {
        ref_pos_row + bh - grid_pos_row
    } else {
        grid_pos_row + bh - ref_pos_row
    };
    width * height
}

/// The four cells a block can touch share its whole area: the overlaps with
/// the cell it starts in, the one to the right, the one below and the one
/// across add up to the area of the block, and none is negative.
pub proof fn overlaps_cover_the_block(ref_row: int, ref_col: int, w: int, h: int)
    requires
        w > 0,
        h > 0,
    ensures
        ({
            let row = floor_cell(ref_row, h) * h;
            let col = floor_cell(ref_col, w) * w;
            let a = overlap_area(row, col, ref_row, ref_col, OverlapCorner::UpLeft, w, h);
            let b = overlap_area(row, col + w, ref_row, ref_col, OverlapCorner::UpRight, w, h);
            let c = overlap_area(row + h, col, ref_row, ref_col, OverlapCorner::DownLeft, w, h);
            let d = overlap_area(row + h, col + w, ref_row, ref_col, OverlapCorner::DownRight, w, h);
            a + b + c + d == w * h && a >= 0 && b >= 0 && c >= 0 && d >= 0
        }),
{
    round_floor_is_floor_division(ref_row, h);
    round_floor_is_floor_division(ref_col, w);
    let x = ref_col - floor_cell(ref_col, w) * w;
    let y = ref_row - floor_cell(ref_row, h) * h;
    assert((w - x) * (h - y) + x * (h - y) + (w - x) * y + x * y == w * h) by (nonlinear_arith);
    lemma_mul_nonnegative(w - x, h - y);
    lemma_mul_nonnegative(x, h - y);
    lemma_mul_nonnegative(w - x, y);
    lemma_mul_nonnegative(x, y);
}

/// Fraction bits of a dependency cost.
pub const TPL_DEP_COST_SCALE_LOG2: u32 = 4;

/// Fraction bits of a rate.
pub const AV1_PROB_COST_SHIFT: u32 = 9;

/// Distortion up to which a rate is passed on as it is.
pub const LOW_DISTORTION: i64 = 128;

/// The rate that is passed on to the reference: nothing can be said without a
/// distortion or samples, a small distortion passes the rate on unchanged,
/// and otherwise the rate of the model applies, given in whole bits.
pub fn delta_rate_cost(
    delta_rate: i64,
    recrf_dist: i64,
    srcrf_dist: i64,
    pix_num: i32,
    model_bits: i64,
) -> (r: Option<i64>)
    ensures
        r is None <==> recrf_dist == 0 || pix_num == 0,
        r is Some ==> r->0 == (if srcrf_dist <= LOW_DISTORTION {
            delta_rate as int
        } else {
            wrap_i64(model_bits * 8192)
        }),
{
    if recrf_dist == 0 || pix_num == 0 {
        return None;
    }
    if srcrf_dist <= LOW_DISTORTION {
        return Some(delta_rate);
    }
    let cost: i64 = model_bits.wrapping_mul(8192);
    proof {
        lemma_wrap_i64(model_bits * 8192);
    }
    Some(cost)
}

proof fn lemma_wrap_i64(x: int)
    ensures
        wrap_i64(x) == (if x % 0x1_0000_0000_0000_0000 > i64::MAX {
            x % 0x1_0000_0000_0000_0000 - 0x1_0000_0000_0000_0000
        } else {
            x % 0x1_0000_0000_0000_0000
        }),
{
    let d: int = 0x1_0000_0000_0000_0000;
    let h: int = 0x8000_0000_0000_0000;
    let (a, m) = (x / d, x % d);
    vstd::arithmetic::div_mod::lemma_fundamental_div_mod(x, d);
    if m >= h {
        vstd::arithmetic::div_mod::lemma_fundamental_div_mod_converse(x + h, d, a + 1, m - h);
    } else {
        vstd::arithmetic::div_mod::lemma_fundamental_div_mod_converse(x + h, d, a, m + h);
    }
}

/// Samples of a block are found by row and column.
pub proof fn samples_lie_in_rows(buf: Seq<u8>, stride: int, w: int, r: int, c: int)
    requires
        0 < w,
        0 <= r,
        0 <= c < w,
    ensures
        sample(buf, stride, w, r * w + c) == buf[r * stride + c],
{
    vstd::arithmetic::div_mod::lemma_fundamental_div_mod_converse(r * w + c, w, r, c);
}

/// The scatter of a block is its sum of squares less the part of it that the
/// mean accounts for: times the count, it is the count times the sum of
/// squares less the square of the sum, but for rounding.
pub proof fn scatter_leaves_out_the_mean(buf: Seq<u8>, stride: int, w: int, n: int, level: int)
    requires
        0 < n,
    ensures
        ({
            let sum = total(|i: int| sample(buf, stride, w, i) - level, n);
            let squares = total(|i: int| (sample(buf, stride, w, i) - level) * (sample(buf, stride, w, i) - level), n);
            let s = scatter(buf, stride, w, n, level);
            n * squares - sum * sum <= n * s < n * squares - sum * sum + n
        }),
{
    let f = |i: int| sample(buf, stride, w, i) - level;
    let g = |i: int| (sample(buf, stride, w, i) - level) * (sample(buf, stride, w, i) - level);
    assert(about(buf, stride, w, level) =~= f);
    assert(square_about(buf, stride, w, level) =~= g);
    let (sum, squares) = (total(f, n), total(g, n));
    let q = (sum * sum) / n;
    vstd::arithmetic::div_mod::lemma_fundamental_div_mod(sum * sum, n);
    assert(n * (squares - q) == n * squares - n * q) by (nonlinear_arith);
}

/// A flat block has no scatter.
pub proof fn flat_blocks_have_no_scatter(buf: Seq<u8>, stride: int, w: int, n: int, level: int, v: int)
    requires
        0 < n,
        forall|i: int| 0 <= i < n ==> #[trigger] sample(buf, stride, w, i) == v,
    ensures
        scatter(buf, stride, w, n, level) == 0,
{
    let d = v - level;
    lemma_flat_totals(buf, stride, w, n, level, v);
    assert((n * d) * (n * d) == n * (n * (d * d))) by (nonlinear_arith);
    lemma_mul_is_commutative(n, n * (d * d));
    assert(n * (d * d) >= 0) by (nonlinear_arith)
        requires
            n > 0,
    ;
    vstd::arithmetic::div_mod::lemma_div_by_multiple(n * (d * d), n);
}

proof fn lemma_flat_totals(buf: Seq<u8>, stride: int, w: int, n: int, level: int, v: int)
    requires
        0 <= n,
        forall|i: int| 0 <= i < n ==> #[trigger] sample(buf, stride, w, i) == v,
    ensures
        total(about(buf, stride, w, level), n) == n * (v - level),
        total(square_about(buf, stride, w, level), n) == n * ((v - level) * (v - level)),
    decreases n,
{
    let d = v - level;
    if n > 0 {
        lemma_flat_totals(buf, stride, w, n - 1, level, v);
        assert(sample(buf, stride, w, n - 1) == v);
        assert(n * d == (n - 1) * d + d && n * (d * d) == (n - 1) * (d * d) + d * d) by (nonlinear_arith);
    } else {
        assert(n * d == 0 && n * (d * d) == 0) by (nonlinear_arith)
            requires
                n == 0,
        ;
    }
}

/// A rounded quotient is the nearest there is.
pub proof fn quotients_are_nearest(x: int, n: int)
    requires
        0 < n,
    ensures
        2 * x - n < 2 * (n * rounded_quotient(x, n)) <= 2 * x + n,
{
    vstd::arithmetic::div_mod::lemma_fundamental_div_mod(x + n / 2, n);
}

} // verus!
