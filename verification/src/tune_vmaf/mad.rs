//! The mean absolute deviation of a picture's blocks.

use vstd::arithmetic::mul::{lemma_mul_inequality, lemma_mul_is_commutative, lemma_mul_nonnegative};
use vstd::prelude::*;

use crate::arith::{abs_int, lemma_raster_bounds, lemma_raster_index, total};
use crate::raster::{lemma_next_row, lemma_pos, pos};

verus! {

/// Samples of a block.
pub open spec fn block_terms(src: Seq<u8>, stride: int, r: int, c: int) -> spec_fn(int) -> int {
    |i: int| src[pos(8 * r * stride + 8 * c, stride, 8, i)] as int
}

/// Mean of a block, rounded down.
pub open spec fn block_mean(src: Seq<u8>, stride: int, r: int, c: int) -> int {
    total(block_terms(src, stride, r, c), 64) / 64
}

/// Absolute deviations of a block's samples from its mean.
pub open spec fn deviation_terms(src: Seq<u8>, stride: int, r: int, c: int) -> spec_fn(int) -> int {
    |i: int| abs_int(src[pos(8 * r * stride + 8 * c, stride, 8, i)] - block_mean(src, stride, r, c))
}

/// Sum of a block's absolute deviations.
pub open spec fn block_deviation(src: Seq<u8>, stride: int, r: int, c: int) -> int {
    total(deviation_terms(src, stride, r, c), 64)
}

/// Deviations of the picture's blocks, row by row.
pub open spec fn picture_terms(src: Seq<u8>, stride: int, cols: int) -> spec_fn(int) -> int {
    |b: int| block_deviation(src, stride, b / cols, b % cols)
}

/// Mean absolute deviation of the samples of all whole blocks from their
/// block's mean, rounded down; zero where there is no whole block.
pub open spec fn average_deviation(src: Seq<u8>, width: int, height: int, stride: int) -> int {
    let rows = height / 8;
    let cols = width / 8;
    if rows * cols == 0 {
        0
    } else {
        total(picture_terms(src, stride, cols), rows * cols) / (rows * cols * 64)
    }
}

fn deviation(src: &[u8], stride: usize, r: usize, c: usize) -> (mad: u32)
    requires
        8 * r + 8 <= usize::MAX,
        8 * c + 8 <= usize::MAX,
        (8 * r + 7) * stride + 8 * c + 8 <= src@.len(),
    ensures
        mad == block_deviation(src@, stride as int, r as int, c as int),
        mad <= 16320,
{
    let len: usize = src.len();
    proof {
        lemma_mul_inequality(8 * r, 8 * r + 7, stride as int);
        lemma_mul_nonnegative(8 * r as int, stride as int);
        assert((8 * r + 7) * stride == 8 * r * stride + 7 * stride) by (nonlinear_arith);
    }
    let off: usize = 8 * r * stride + 8 * c;
    let ghost f = block_terms(src@, stride as int, r as int, c as int);
    let mut sum: u32 = 0;
    let mut i: usize = 0;
    while i < 64
        invariant
            i <= 64,
            len == src@.len(),
            off == 8 * r * stride + 8 * c,
            off + 7 * stride + 8 <= len,
            f == block_terms(src@, stride as int, r as int, c as int),
            sum == total(f, i as int),
            sum <= 255 * i,
        decreases 64 - i,
    {
        proof {
            lemma_pos(len as int, off as int, stride as int, 8, 8, i as int / 8, i as int % 8);
        }
        sum = sum + src[off + i / 8 * stride + i % 8] as u32;
        i = i + 1;
    }
    let mean: u32 = sum / 64;
    let ghost g = deviation_terms(src@, stride as int, r as int, c as int);
    let mut mad: u32 = 0;
    i = 0;
    while i < 64
        invariant
            i <= 64,
            len == src@.len(),
            off == 8 * r * stride + 8 * c,
            off + 7 * stride + 8 <= len,
            mean == block_mean(src@, stride as int, r as int, c as int),
            mean <= 255,
            g == deviation_terms(src@, stride as int, r as int, c as int),
            mad == total(g, i as int),
            mad <= 255 * i,
        decreases 64 - i,
    {
        proof {
            lemma_pos(len as int, off as int, stride as int, 8, 8, i as int / 8, i as int % 8);
        }
        let s: u32 = src[off + i / 8 * stride + i % 8] as u32;
        mad = mad + if s >= mean {
            s - mean
        } else {
            mean - s
        };
        i = i + 1;
    }
    mad
}

/// Mean absolute deviation of the samples of all whole blocks from their
/// block's mean.
pub fn compute_avg_mad(src: &[u8], width: usize, height: usize, stride: usize) -> (r: u32)
    requires
        height >= 8 && width >= 8 ==> (height as int / 8 * 8 - 1) * stride + width as int / 8 * 8 <= src@.len(),
        (height as int / 8) * (width as int / 8) * 16320 <= u64::MAX,
    ensures
        r == average_deviation(src@, width as int, height as int, stride as int),
        r <= 255,
{
    let rows: usize = height / 8;
    let cols: usize = width / 8;
    let ghost f = picture_terms(src@, stride as int, cols as int);
    let mut total_activity: u64 = 0;
    let mut blocks: u64 = 0;
    let mut i: usize = 0;
    proof {
        assert(0 * (cols as int) == 0) by (nonlinear_arith);
        lemma_mul_nonnegative(rows as int, cols as int);
    }
    while i < rows
        invariant
            i <= rows,
            rows == height / 8,
            cols == width / 8,
            rows > 0 && cols > 0 ==> (8 * rows - 1) * stride + 8 * cols <= src@.len(),
            rows * cols * 16320 <= u64::MAX,
            f == picture_terms(src@, stride as int, cols as int),
            blocks == i * cols,
            total_activity == total(f, i * cols),
            total_activity <= 16320 * blocks,
        decreases rows - i,
    {
        let mut j: usize = 0;
        while j < cols
            invariant
                i < rows,
                j <= cols,
                rows == height / 8,
                cols == width / 8,
                (8 * rows - 1) * stride + 8 * cols <= src@.len() || cols == 0,
                rows * cols * 16320 <= u64::MAX,
                f == picture_terms(src@, stride as int, cols as int),
                blocks == i * cols + j,
                total_activity == total(f, i * cols + j),
                total_activity <= 16320 * blocks,
            decreases cols - j,
        {
            proof {
                lemma_mul_inequality(8 * i + 7, 8 * rows - 1, stride as int);
                lemma_raster_bounds(i as int, j as int, cols as int, rows as int);
                lemma_raster_index(i as int, j as int, cols as int);
                lemma_mul_is_commutative(rows as int, cols as int);
            }
            let mad: u32 = deviation(src, stride, i, j);
            assert(f(i * cols + j) == mad);
            total_activity = total_activity + mad as u64;
            blocks = blocks + 1;
            j = j + 1;
        }
        proof {
            lemma_next_row(i as int, cols as int);
        }
        i = i + 1;
    }
    if blocks == 0 {
        return 0;
    }
    proof {
        assert(total_activity as int / (blocks * 64) <= 255) by (nonlinear_arith)
            requires
                total_activity <= 16320 * blocks,
                blocks > 0,
        ;
    }
    (total_activity / (blocks * 64)) as u32
}

} // verus!
