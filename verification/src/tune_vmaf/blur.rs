//! A binomial blur, one pass along the rows and one along the columns.

use vstd::arithmetic::mul::{lemma_mul_inequality, lemma_mul_is_commutative, lemma_mul_nonnegative};
use vstd::prelude::*;
use vstd::slice::slice_subrange;

use crate::arith::{clamp_int, lemma_raster_bounds, lemma_raster_index, low_u8, min_int, unsigned_i32};
use crate::raster::{inside, lemma_next_row};
use crate::tune_vmaf::{VMAF_RING_ROWS, VMAF_STEPS};

verus! {

/// The five values before and at `m` weighted 1, 4, 6, 4, 1.
pub open spec fn binomial(t: spec_fn(int) -> int, m: int) -> int {
    t(m) + 4 * t(m - 1) + 6 * t(m - 2) + 4 * t(m - 3) + t(m - 4)
}

/// A row as a horizontal pass reads it: it starts two samples early, repeats
/// the samples at both ends, and nothing comes before.
pub open spec fn padded(row: Seq<u8>, width: int) -> spec_fn(int) -> int {
    |m: int|
        if m < 0 {
            0
        } else {
            row[clamp_int(m - 2, 0, width - 1)] as int
        }
}

/// Blurs a row horizontally, sixteen times too bright. Entry `i` is centred
/// four samples before `i`; the first four entries are incomplete.
pub fn hpass_row(src_row: &[u8], width: usize, h_row: &mut [i16])
    requires
        1 <= width <= i32::MAX - 2,
        width <= src_row@.len(),
        width + 4 <= old(h_row)@.len(),
    ensures
        final(h_row)@.len() == old(h_row)@.len(),
        forall|i: int|
            0 <= i < old(h_row)@.len() ==> #[trigger] final(h_row)@[i] == if i < width + 4 {
                binomial(padded(src_row@, width as int), i)
            } else {
                old(h_row)@[i] as int
            },
{
    let ghost t = padded(src_row@, width as int);
    let ghost a = h_row@;
    let mut acc0: u32 = 0;
    let mut acc1: u32 = 0;
    let mut acc2: u32 = 0;
    let mut acc3: u32 = 0;
    let mut i: usize = 0;
    while i < width + 4
        invariant
            1 <= width <= i32::MAX - 2,
            width <= src_row@.len(),
            width + 4 <= a.len(),
            h_row@.len() == a.len(),
            i <= width + 4,
            t == padded(src_row@, width as int),
            forall|m: int| 0 <= #[trigger] t(m) <= 255,
            acc0 == t(i - 1),
            acc1 == t(i - 1) + t(i - 2),
            acc2 == t(i - 1) + 2 * t(i - 2) + t(i - 3),
            acc3 == t(i - 1) + 3 * t(i - 2) + 3 * t(i - 3) + t(i - 4),
            forall|k: int|
                0 <= k < a.len() ==> #[trigger] h_row@[k] == if k < i {
                    binomial(t, k)
                } else {
                    a[k] as int
                },
        decreases width + 4 - i,
    {
        let s: u32 = if i <= VMAF_STEPS {
            src_row[0] as u32
        } else if i - VMAF_STEPS >= width {
            src_row[width - 1] as u32
        } else {
            src_row[i - VMAF_STEPS] as u32
        };
        assert(s == t(i as int));
        let a1: u32 = acc0 + s;
        acc0 = s;
        let y1: u32 = acc1 + a1;
        acc1 = a1;
        let a2: u32 = acc2 + y1;
        acc2 = y1;
        let y2: u32 = acc3 + a2;
        acc3 = a2;
        h_row[i] = y2 as i16;
        i = i + 1;
    }
}

/// An entry read as an unsigned number.
pub open spec fn unsigned(x: i16) -> int {
    x as int % 0x1_0000_0000
}

/// Five entries of a column weighted 1, 4, 6, 4, 1.
pub open spec fn column_sum(a: i16, b: i16, c: i16, d: i16, e: i16) -> int {
    unsigned(a) + unsigned(e) + 4 * (unsigned(b) + unsigned(d)) + 6 * unsigned(c)
}

/// Blurs five horizontally blurred rows vertically, and brings the brightness
/// back. The entries that `steps_x` makes incomplete are passed over.
pub fn vpass_row(rows: [&[i16]; 5], blur_row: &mut [u8], width: usize, steps_x: usize)
    requires
        2 * steps_x + min_int(width as int, old(blur_row)@.len() as int) <= usize::MAX,
        forall|k: int|
            0 <= k < 5 ==> 2 * steps_x + min_int(width as int, old(blur_row)@.len() as int) <= (#[trigger] rows[k])@.len(),
        forall|x: int|
            0 <= x < min_int(width as int, old(blur_row)@.len() as int) ==> #[trigger] column_at(rows, 2 * steps_x + x)
                + 128 <= u32::MAX,
    ensures
        final(blur_row)@.len() == old(blur_row)@.len(),
        forall|x: int|
            0 <= x < old(blur_row)@.len() ==> #[trigger] final(blur_row)@[x] == if x < width {
                (column_at(rows, 2 * steps_x + x) + 128) / 256 % 256
            } else {
                old(blur_row)@[x] as int
            },
{
    let n: usize = if width < blur_row.len() {
        width
    } else {
        blur_row.len()
    };
    vertical_pass(rows, blur_row, 0, n, 2 * steps_x);
}

fn vertical_pass(rows: [&[i16]; 5], out: &mut [u8], off: usize, n: usize, start: usize)
    requires
        start + n <= usize::MAX,
        off + n <= old(out)@.len(),
        forall|k: int| 0 <= k < 5 ==> start + n <= (#[trigger] rows[k])@.len(),
        forall|x: int| 0 <= x < n ==> #[trigger] column_at(rows, start + x) + 128 <= u32::MAX,
    ensures
        final(out)@.len() == old(out)@.len(),
        forall|k: int|
            0 <= k < old(out)@.len() ==> #[trigger] final(out)@[k] == if off <= k < off + n {
                (column_at(rows, start + (k - off)) + 128) / 256 % 256
            } else {
                old(out)@[k] as int
            },
{
    let ghost a = out@;
    let len: usize = out.len();
    let mut x: usize = 0;
    while x < n
        invariant
            x <= n,
            len == a.len(),
            off + n <= len,
            start + n <= usize::MAX,
            out@.len() == a.len(),
            forall|k: int| 0 <= k < 5 ==> start + n <= (#[trigger] rows[k])@.len(),
            forall|k: int| 0 <= k < n ==> #[trigger] column_at(rows, start + k) + 128 <= u32::MAX,
            forall|k: int|
                0 <= k < a.len() ==> #[trigger] out@[k] == if off <= k < off + x {
                    (column_at(rows, start + (k - off)) + 128) / 256 % 256
                } else {
                    a[k] as int
                },
        decreases n - x,
    {
        let j: usize = x + start;
        proof {
            assert(column_at(rows, start + x) + 128 <= u32::MAX);
        }
        let r0: u32 = unsigned_i32(rows[0][j] as i32);
        let r1: u32 = unsigned_i32(rows[1][j] as i32);
        let r2: u32 = unsigned_i32(rows[2][j] as i32);
        let r3: u32 = unsigned_i32(rows[3][j] as i32);
        let r4: u32 = unsigned_i32(rows[4][j] as i32);
        let v: u32 = r0 + r4 + 4 * (r1 + r3) + 6 * r2;
        out[off + x] = low_u8((v + 128) / 256);
        x = x + 1;
    }
}

/// The weighted sum of a column of five rows.
pub open spec fn column_at(rows: [&[i16]; 5], j: int) -> int {
    column_sum(rows[0]@[j], rows[1]@[j], rows[2]@[j], rows[3]@[j], rows[4]@[j])
}

/// Scratch space of a blur: five horizontally blurred rows.
#[derive(Debug, Clone)]
pub struct VmafRing {
    rows: Vec<Vec<i16>>,
}

impl VmafRing {
    /// The rows have room for pictures of a width.
    pub closed spec fn fits(self, width: int) -> bool {
        &&& self.rows@.len() == 5
        &&& forall|k: int| 0 <= k < 5 ==> width + 4 <= (#[trigger] self.rows@[k])@.len()
    }

    /// Scratch space for pictures of a width.
    pub fn new(width: usize) -> (r: VmafRing)
        requires
            width + 4 <= usize::MAX,
        ensures
            r.fits(width as int),
    {
        let mut rows: Vec<Vec<i16>> = Vec::new();
        let mut k: usize = 0;
        while k < VMAF_RING_ROWS
            invariant
                k <= 5,
                width + 4 <= usize::MAX,
                rows@.len() == k,
                forall|i: int| 0 <= i < k ==> width + 4 <= (#[trigger] rows@[i])@.len(),
            decreases 5 - k,
        {
            let row: Vec<i16> = vec![0i16; width + 4];
            rows.push(row);
            k = k + 1;
        }
        VmafRing { rows }
    }
}

/// A row of a picture and what follows it.
pub open spec fn row_of(luma: Seq<u8>, stride: int, r: int) -> Seq<u8> {
    luma.subrange(r * stride, luma.len() as int)
}

/// The horizontally blurred row that is `d` rows below row `m`, at column
/// `x`. Rows beyond the picture repeat its first and last.
pub open spec fn row_blurred(luma: Seq<u8>, stride: int, width: int, height: int, m: int, d: int, x: int) -> int {
    binomial(padded(row_of(luma, stride, clamp_int(m + d, 0, height - 1)), width), x + 4)
}

/// A blurred sample: the samples around it weighted by a binomial in both
/// directions and rounded to nearest.
#[verifier::opaque]
pub open spec fn blurred(luma: Seq<u8>, stride: int, width: int, height: int, m: int, x: int) -> int {
    (row_blurred(luma, stride, width, height, m, -2, x) + 4 * row_blurred(luma, stride, width, height, m, -1, x) + 6
        * row_blurred(luma, stride, width, height, m, 0, x) + 4 * row_blurred(luma, stride, width, height, m, 1, x)
        + row_blurred(luma, stride, width, height, m, 2, x) + 128) / 256
}

/// `row` is a horizontally blurred row of the picture.
pub open spec fn is_blurred_row(row: Seq<i16>, luma: Seq<u8>, stride: int, width: int, r: int) -> bool {
    &&& width + 4 <= row.len()
    &&& forall|i: int|
        0 <= i < width + 4 ==> #[trigger] row[i] == binomial(padded(row_of(luma, stride, r), width), i)
}

proof fn lemma_row(luma_len: int, stride: int, width: int, height: int, r: int)
    requires
        inside(luma_len, 0, stride, width, height),
        0 <= stride,
        0 < width,
        0 <= r < height,
    ensures
        0 <= r * stride,
        r * stride + width <= luma_len,
{
    lemma_mul_inequality(r, height - 1, stride);
    lemma_mul_nonnegative(r, stride);
}

fn blur_row(luma: &[u8], stride: usize, width: usize, height: usize, r: usize, h_row: &mut Vec<i16>)
    requires
        1 <= width <= i32::MAX - 2,
        r < height,
        inside(luma@.len() as int, 0, stride as int, width as int, height as int),
        width + 4 <= old(h_row)@.len(),
    ensures
        is_blurred_row(final(h_row)@, luma@, stride as int, width as int, r as int),
{
    let len: usize = luma.len();
    proof {
        lemma_row(len as int, stride as int, width as int, height as int, r as int);
    }
    let row: &[u8] = slice_subrange(luma, r * stride, len);
    hpass_row(row, width, h_row.as_mut_slice());
}

proof fn lemma_entries(row: Seq<i16>, luma: Seq<u8>, stride: int, width: int, r: int, i: int)
    requires
        is_blurred_row(row, luma, stride, width, r),
        0 <= i < width + 4,
    ensures
        0 <= row[i] <= 4080,
        unsigned(row[i]) == binomial(padded(row_of(luma, stride, r), width), i),
{
    let t = padded(row_of(luma, stride, r), width);
    assert(0 <= t(i) <= 255 && 0 <= t(i - 1) <= 255 && 0 <= t(i - 2) <= 255 && 0 <= t(i - 3) <= 255 && 0 <= t(i - 4)
        <= 255);
}

fn clamped_row(m: usize, k: usize, height: usize) -> (r: usize)
    requires
        height >= 1,
        k < 5,
        m + 5 <= usize::MAX,
    ensures
        r == clamp_int(m + k - 2, 0, height - 1),
{
    if m + k < 2 {
        0
    } else if m + k - 2 >= height {
        height - 1
    } else {
        m + k - 2
    }
}

/// The rows around row `m` are in the ring, from `first` on.
spec fn ring_around(
    rows: Seq<Vec<i16>>,
    luma: Seq<u8>,
    stride: int,
    width: int,
    height: int,
    m: int,
    first: int,
) -> bool {
    forall|i: int|
        first <= i < 5 ==> is_blurred_row(
            (#[trigger] rows[i])@,
            luma,
            stride,
            width,
            clamp_int(m + i - 2, 0, height - 1),
        )
}

/// Replaces the oldest row by the one two rows below row `m`.
fn advance_ring(luma: &[u8], stride: usize, width: usize, height: usize, m: usize, ring: &mut VmafRing)
    requires
        m < height,
        1 <= width <= i32::MAX - 2,
        1 <= height <= i32::MAX - 2,
        inside(luma@.len() as int, 0, stride as int, width as int, height as int),
        old(ring).fits(width as int),
        ring_around(old(ring).rows@, luma@, stride as int, width as int, height as int, m - 1, 1),
    ensures
        final(ring).fits(width as int),
        ring_around(final(ring).rows@, luma@, stride as int, width as int, height as int, m as int, 0),
{
    let ghost before = ring.rows@;
    let mut oldest: Vec<i16> = ring.rows.remove(0);
    let r: usize = clamped_row(m, 4, height);
    blur_row(luma, stride, width, height, r, &mut oldest);
    ring.rows.push(oldest);
    proof {
        assert forall|i: int| 0 <= i < 5 implies is_blurred_row(
            (#[trigger] ring.rows@[i])@,
            luma@,
            stride as int,
            width as int,
            clamp_int(m + i - 2, 0, height - 1),
        ) by {
            if i < 4 {
                assert(ring.rows@[i] == before[i + 1]);
            }
        }
    }
}

/// Blurs row `m` vertically.
fn emit_row(luma: &[u8], stride: usize, blur: &mut [u8], width: usize, height: usize, m: usize, ring: &VmafRing)
    requires
        m < height,
        1 <= width <= i32::MAX - 2,
        1 <= height <= i32::MAX - 2,
        width * height <= old(blur)@.len(),
        ring.fits(width as int),
        ring_around(ring.rows@, luma@, stride as int, width as int, height as int, m as int, 0),
    ensures
        final(blur)@.len() == old(blur)@.len(),
        forall|k: int|
            0 <= k < old(blur)@.len() ==> #[trigger] final(blur)@[k] == if m * width <= k < m * width + width {
                blurred(luma@, stride as int, width as int, height as int, k / (width as int), k % (width as int))
            } else {
                old(blur)@[k] as int
            },
{
    let ghost prior = blur@;
    let blur_len: usize = blur.len();
    proof {
        lemma_raster_bounds(m as int, 0, width as int, height as int);
        assert(blur_len == blur@.len());
    }
    let off: usize = m * width;
    let rows: [&[i16]; 5] = [
        ring.rows[0].as_slice(),
        ring.rows[1].as_slice(),
        ring.rows[2].as_slice(),
        ring.rows[3].as_slice(),
        ring.rows[4].as_slice(),
    ];
    proof {
        assert forall|i: int| 0 <= i < 5 implies is_blurred_row(
            (#[trigger] rows[i])@,
            luma@,
            stride as int,
            width as int,
            clamp_int(m + i - 2, 0, height - 1),
        ) by {
            assert(i == 0 || i == 1 || i == 2 || i == 3 || i == 4);
            assert(is_blurred_row(
                ring.rows@[i]@,
                luma@,
                stride as int,
                width as int,
                clamp_int(m + i - 2, 0, height - 1),
            ));
        }
        lemma_columns(rows, luma@, stride as int, width as int, height as int, m as int);
    }
    vertical_pass(rows, blur, off, width, 2 * VMAF_STEPS);
    proof {
        assert forall|k: int| 0 <= k < prior.len() implies #[trigger] blur@[k] == if off <= k < off + width {
            blurred(luma@, stride as int, width as int, height as int, k / (width as int), k % (width as int))
        } else {
            prior[k] as int
        } by {
            if off <= k < off + width {
                lemma_raster_index(m as int, k - off, width as int);
                assert(column_at(rows, 4 + (k - off)) + 128 <= 65408);
            }
        }
    }
}

/// Blurs a picture. The result has no gaps between its rows.
pub fn box_blur_frame(luma: &[u8], stride: usize, blur: &mut [u8], width: usize, height: usize, ring: &mut VmafRing)
    requires
        old(ring).fits(width as int),
        width <= i32::MAX - 2,
        height <= i32::MAX - 2,
        inside(luma@.len() as int, 0, stride as int, width as int, height as int),
        width * height <= old(blur)@.len(),
    ensures
        final(ring).fits(width as int),
        final(blur)@.len() == old(blur)@.len(),
        forall|k: int|
            0 <= k < old(blur)@.len() ==> #[trigger] final(blur)@[k] == if k < width * height {
                blurred(luma@, stride as int, width as int, height as int, k / (width as int), k % (width as int))
            } else {
                old(blur)@[k] as int
            },
{
    if height == 0 || width == 0 {
        proof {
            assert(width * height == 0) by (nonlinear_arith)
                requires
                    width == 0 || height == 0,
            ;
        }
        return;
    }
    let ghost b0 = blur@;
    let blur_len: usize = blur.len();
    let mut k: usize = 1;
    while k < VMAF_RING_ROWS
        invariant
            1 <= k <= 5,
            1 <= width <= i32::MAX - 2,
            1 <= height <= i32::MAX - 2,
            inside(luma@.len() as int, 0, stride as int, width as int, height as int),
            ring.fits(width as int),
            forall|i: int|
                1 <= i < k ==> is_blurred_row(
                    (#[trigger] ring.rows@[i])@,
                    luma@,
                    stride as int,
                    width as int,
                    clamp_int(i - 3, 0, height - 1),
                ),
        decreases 5 - k,
    {
        let r: usize = if k < 3 {
            0
        } else if k - 3 >= height {
            height - 1
        } else {
            k - 3
        };
        blur_row(luma, stride, width, height, r, &mut ring.rows[k]);
        k = k + 1;
    }
    let mut m: usize = 0;
    proof {
        assert(0 * (width as int) == 0) by (nonlinear_arith);
    }
    while m < height
        invariant
            m <= height,
            1 <= width <= i32::MAX - 2,
            1 <= height <= i32::MAX - 2,
            inside(luma@.len() as int, 0, stride as int, width as int, height as int),
            ring.fits(width as int),
            blur_len == blur@.len(),
            blur_len == b0.len(),
            width * height <= blur_len,
            forall|i: int|
                1 <= i < 5 ==> is_blurred_row(
                    (#[trigger] ring.rows@[i])@,
                    luma@,
                    stride as int,
                    width as int,
                    clamp_int(m + i - 3, 0, height - 1),
                ),
            forall|k: int|
                0 <= k < b0.len() ==> #[trigger] blur@[k] == if k < m * width {
                    blurred(luma@, stride as int, width as int, height as int, k / (width as int), k % (width as int))
                } else {
                    b0[k] as int
                },
        decreases height - m,
    {
        advance_ring(luma, stride, width, height, m, ring);
        emit_row(luma, stride, blur, width, height, m, &*ring);
        proof {
            lemma_next_row(m as int, width as int);
        }
        m = m + 1;
    }
    proof {
        lemma_mul_is_commutative(width as int, height as int);
    }
}

proof fn lemma_columns(rows: [&[i16]; 5], luma: Seq<u8>, stride: int, width: int, height: int, m: int)
    requires
        forall|i: int|
            0 <= i < 5 ==> is_blurred_row(
                (#[trigger] rows[i])@,
                luma,
                stride,
                width,
                clamp_int(m + i - 2, 0, height - 1),
            ),
    ensures
        forall|x: int|
            0 <= x < width ==> {
                &&& 0 <= #[trigger] column_at(rows, 4 + x) <= 65280
                &&& (column_at(rows, 4 + x) + 128) / 256 == blurred(luma, stride, width, height, m, x)
            },
{
    reveal(blurred);
    assert forall|x: int| 0 <= x < width implies {
        &&& 0 <= #[trigger] column_at(rows, 4 + x) <= 65280
        &&& (column_at(rows, 4 + x) + 128) / 256 == blurred(luma, stride, width, height, m, x)
    } by {
        lemma_entries(rows[0]@, luma, stride, width, clamp_int(m - 2, 0, height - 1), 4 + x);
        lemma_entries(rows[1]@, luma, stride, width, clamp_int(m - 1, 0, height - 1), 4 + x);
        lemma_entries(rows[2]@, luma, stride, width, clamp_int(m, 0, height - 1), 4 + x);
        lemma_entries(rows[3]@, luma, stride, width, clamp_int(m + 1, 0, height - 1), 4 + x);
        lemma_entries(rows[4]@, luma, stride, width, clamp_int(m + 2, 0, height - 1), 4 + x);
    }
}

proof fn lemma_row_blurred_bounds(
    luma: Seq<u8>,
    stride: int,
    width: int,
    height: int,
    m: int,
    d: int,
    x: int,
    lo: int,
    hi: int,
)
    requires
        inside(luma.len() as int, 0, stride, width, height),
        0 <= stride,
        0 < width,
        0 < height,
        0 <= x,
        forall|k: int| 0 <= k < luma.len() ==> lo <= #[trigger] luma[k] <= hi,
    ensures
        16 * lo <= row_blurred(luma, stride, width, height, m, d, x) <= 16 * hi,
{
    let r = clamp_int(m + d, 0, height - 1);
    lemma_row(luma.len() as int, stride, width, height, r);
    let row = row_of(luma, stride, r);
    let t = padded(row, width);
    assert forall|i: int| 0 <= i implies lo <= #[trigger] t(i) <= hi by {
        let c = clamp_int(i - 2, 0, width - 1);
        assert(row[c] == luma[r * stride + c]);
    }
    assert(lo <= t(x + 4) <= hi && lo <= t(x + 3) <= hi && lo <= t(x + 2) <= hi && lo <= t(x + 1) <= hi && lo <= t(x)
        <= hi);
}

/// Blurring invents nothing: where all samples lie in a range, so do the
/// blurred ones. In particular a flat picture stays as it is.
pub proof fn blurring_stays_in_range(
    luma: Seq<u8>,
    stride: int,
    width: int,
    height: int,
    m: int,
    x: int,
    lo: int,
    hi: int,
)
    requires
        inside(luma.len() as int, 0, stride, width, height),
        0 <= stride,
        0 < width,
        0 < height,
        0 <= x < width,
        0 <= m < height,
        forall|k: int| 0 <= k < luma.len() ==> lo <= #[trigger] luma[k] <= hi,
    ensures
        lo <= blurred(luma, stride, width, height, m, x) <= hi,
{
    reveal(blurred);
    lemma_row_blurred_bounds(luma, stride, width, height, m, -2, x, lo, hi);
    lemma_row_blurred_bounds(luma, stride, width, height, m, -1, x, lo, hi);
    lemma_row_blurred_bounds(luma, stride, width, height, m, 0, x, lo, hi);
    lemma_row_blurred_bounds(luma, stride, width, height, m, 1, x, lo, hi);
    lemma_row_blurred_bounds(luma, stride, width, height, m, 2, x, lo, hi);
}

} // verus!
