//! Blocks of samples inside larger buffers.

use vstd::arithmetic::mul::{lemma_mul_inequality, lemma_mul_is_distributive_add_other_way, lemma_mul_nonnegative};
use vstd::prelude::*;

use crate::arith::{lemma_raster_bounds, lemma_raster_index, total};
use crate::pixel::Pixel;

verus! {

/// Position of sample `i` of a `w`-wide block, counted row by row.
pub open spec fn pos(off: int, stride: int, w: int, i: int) -> int {
    off + (i / w) * stride + i % w
}

/// A block lies inside a buffer.
pub open spec fn inside(len: int, off: int, stride: int, w: int, h: int) -> bool {
    w > 0 && h > 0 ==> off + (h - 1) * stride + w <= len
}

/// The samples of a block, row by row without gaps.
pub open spec fn block_of<P: Pixel>(buf: Seq<P>, off: int, stride: int, w: int, h: int) -> Seq<int> {
    Seq::new((w * h) as nat, |i: int| buf[pos(off, stride, w, i)].val())
}

/// The position of a sample lies inside the buffer.
pub proof fn lemma_pos(len: int, off: int, stride: int, w: int, h: int, r: int, c: int)
    requires
        inside(len, off, stride, w, h),
        0 <= off,
        0 <= stride,
        0 <= r < h,
        0 <= c < w,
    ensures
        pos(off, stride, w, r * w + c) == off + r * stride + c,
        0 <= r * stride,
        off + r * stride + c < len,
        0 <= r * w + c < w * h,
        r * w + w <= w * h,
{
    lemma_raster_index(r, c, w);
    lemma_raster_bounds(r, c, w, h);
    lemma_mul_inequality(r, h - 1, stride);
    lemma_mul_nonnegative(r, stride);
}

/// A row ends where the next one starts.
pub proof fn lemma_next_row(r: int, w: int)
    ensures
        (r + 1) * w == r * w + w,
{
    lemma_mul_is_distributive_add_other_way(w, r, 1);
}

/// A sum of terms that are not negative grows with their number.
pub proof fn lemma_total_grows(f: spec_fn(int) -> int, m: int, n: int)
    requires
        0 <= m <= n,
        forall|i: int| 0 <= i < n ==> 0 <= #[trigger] f(i),
    ensures
        0 <= total(f, m) <= total(f, n),
    decreases n,
{
    if m < n {
        lemma_total_grows(f, m, n - 1);
    } else if m > 0 {
        lemma_total_grows(f, m - 1, n - 1);
    }
}

} // verus!
