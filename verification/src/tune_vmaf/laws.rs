//! What blurring, sharpening and measuring do to a picture, sample by sample
//! and as a whole.

use vstd::arithmetic::div_mod::{lemma_fundamental_div_mod, lemma_fundamental_div_mod_converse};
use vstd::prelude::*;

use crate::arith::total;
use crate::raster::pos;
use crate::tune_vmaf::blur::{blurred, column_sum, row_blurred, row_of};
use crate::tune_vmaf::gradient::{
    grad_x, grad_y, is_tile_gradient, tile_at, tiles_along, xx_terms, xy_terms, yy_terms, Tile, TileGradient,
};
use crate::tune_vmaf::mad::{
    average_deviation, block_deviation, block_mean, block_terms, deviation_terms, picture_terms,
};
use crate::tune_vmaf::sharpen::{frame_sharpened, near_count, near_terms, sharpened};
use crate::tune_vmaf::{clip_for, is_busy, low_pass};

verus! {

/// The change is the detail in proportion to the strength: of two strengths
/// the higher one moves a sample at least as far, and of two samples the
/// brighter one stays so.
pub proof fn sharpening_grows_with_strength(s: u8, b: u8, less: int, more: int, max_delta: int)
    requires
        0 <= less <= more,
        0 <= max_delta,
    ensures
        s >= b ==> sharpened(s as int, b as int, less, max_delta) <= sharpened(s as int, b as int, more, max_delta),
        s <= b ==> sharpened(s as int, b as int, more, max_delta) <= sharpened(s as int, b as int, less, max_delta),
{
    let d = crate::tune_vmaf::sharpen::detail(s as int, b as int, max_delta);
    assert(0 <= d ==> d * less <= d * more) by (nonlinear_arith)
        requires
            less <= more,
    ;
    assert(d <= 0 ==> d * more <= d * less) by (nonlinear_arith)
        requires
            less <= more,
    ;
}

/// Where neither the detail nor the sample is cut off, a strength of 32768
/// doubles the detail, and other strengths add their part of it, rounded down.
pub proof fn detail_is_added_in_proportion(s: u8, b: u8, amount: int, max_delta: int)
    requires
        0 <= max_delta,
        -max_delta <= s - b <= max_delta,
    ensures
        ({
            let r = sharpened(s as int, b as int, amount, max_delta);
            &&& 0 < r < 255 ==> 32768 * (r - s) <= (s - b) * amount < 32768 * (r - s) + 32768
            &&& r == 0 ==> (s - b) * amount < 32768 * (1 - s)
            &&& r == 255 ==> 32768 * (255 - s) <= (s - b) * amount
            &&& 0 <= r <= 255
        }),
{
}

/// Detail beyond the limit adds no more than detail at the limit.
pub proof fn detail_is_limited(s: u8, b: u8, amount: int, max_delta: int)
    requires
        0 <= max_delta,
    ensures
        s - b >= max_delta ==> sharpened(s as int, b as int, amount, max_delta) == sharpened(
            s as int,
            s - max_delta,
            amount,
            max_delta,
        ),
        b - s >= max_delta ==> sharpened(s as int, b as int, amount, max_delta) == sharpened(
            s as int,
            s + max_delta,
            amount,
            max_delta,
        ),
{
}

/// The limit rises with the quantizer from eight to twelve, past 42, 51 and
/// 57, and is four less in a busy frame.
pub proof fn limits_rise_with_the_quantizer(p: int, q: int, busy: bool)
    requires
        p <= q,
    ensures
        clip_for(p, busy) <= clip_for(q, busy),
        clip_for(p, true) == clip_for(p, false) - 4,
        8 <= clip_for(p, false) <= 12,
        clip_for(p, false) == 8 <==> p <= 42,
        clip_for(p, false) <= 9 <==> p <= 51,
        clip_for(p, false) <= 10 <==> p <= 57,
        clip_for(p, false) != 11,
{
}

/// A picture is busy where fewer than 85 in 100 of its samples are within
/// twelve of their low-pass version.
pub proof fn busy_pictures_have_little_flat(luma: Seq<u8>, stride: int, width: int, height: int)
    requires
        0 <= (width * height) * 85 < 0x1_0000_0000,
    ensures
        is_busy(luma, stride, width, height) <==> 100 * near_count(
            luma,
            low_pass(luma, stride, width, height),
            width,
            height,
            stride,
            12,
        ) + 100 <= 85 * (width * height),
{
}

/// A sample counts as near where it lies within the threshold, on either side.
pub proof fn near_samples_are_counted(src: Seq<u8>, blur: Seq<u8>, w: int, stride: int, thresh: int, r: int, c: int)
    requires
        0 < w,
        0 <= r,
        0 <= c < w,
    ensures
        near_terms(src, blur, w, stride, thresh)(r * w + c) == if blur[r * w + c] - thresh <= src[r * stride + c]
            <= blur[r * w + c] + thresh {
            1int
        } else {
            0
        },
{
    lemma_fundamental_div_mod_converse(r * w + c, w, r, c);
}

/// Where samples repeat those at the edges of a row.
pub open spec fn sample(luma: Seq<u8>, stride: int, r: int, c: int) -> int {
    luma[r * stride + c] as int
}

proof fn lemma_row_blur(luma: Seq<u8>, stride: int, width: int, height: int, m: int, d: int, x: int)
    requires
        0 <= stride,
        0 <= m + d < height,
        2 <= x < width - 2,
        (height - 1) * stride + width <= luma.len(),
    ensures
        row_blurred(luma, stride, width, height, m, d, x) == sample(luma, stride, m + d, x - 2) + 4 * sample(
            luma,
            stride,
            m + d,
            x - 1,
        ) + 6 * sample(luma, stride, m + d, x) + 4 * sample(luma, stride, m + d, x + 1) + sample(
            luma,
            stride,
            m + d,
            x + 2,
        ),
{
    let r = m + d;
    assert(0 <= r * stride && r * stride <= (height - 1) * stride) by (nonlinear_arith)
        requires
            0 <= r <= height - 1,
            0 <= stride,
    ;
    let row = row_of(luma, stride, r);
    assert(row[x - 2] == luma[r * stride + (x - 2)]);
    assert(row[x - 1] == luma[r * stride + (x - 1)]);
    assert(row[x] == luma[r * stride + x]);
    assert(row[x + 1] == luma[r * stride + (x + 1)]);
    assert(row[x + 2] == luma[r * stride + (x + 2)]);
}

/// A blurred sample inside a picture is the mean of the five by five samples
/// around it, weighted 1, 4, 6, 4, 1 both ways, to the nearest.
pub proof fn blurring_weighs_the_neighbours(luma: Seq<u8>, stride: int, width: int, height: int, m: int, x: int)
    requires
        0 <= stride,
        2 <= m < height - 2,
        2 <= x < width - 2,
        (height - 1) * stride + width <= luma.len(),
    ensures
        ({
            let across = |r: int|
                sample(luma, stride, r, x - 2) + 4 * sample(luma, stride, r, x - 1) + 6 * sample(luma, stride, r, x) + 4
                    * sample(luma, stride, r, x + 1) + sample(luma, stride, r, x + 2);
            let sum = across(m - 2) + 4 * across(m - 1) + 6 * across(m) + 4 * across(m + 1) + across(m + 2);
            sum - 128 < 256 * blurred(luma, stride, width, height, m, x) <= sum + 128
        }),
{
    reveal(blurred);
    lemma_row_blur(luma, stride, width, height, m, -2, x);
    lemma_row_blur(luma, stride, width, height, m, -1, x);
    lemma_row_blur(luma, stride, width, height, m, 0, x);
    lemma_row_blur(luma, stride, width, height, m, 1, x);
    lemma_row_blur(luma, stride, width, height, m, 2, x);
}

/// Past the edges a picture goes on as it ends: at the first column, the left
/// neighbours are that column's sample.
pub proof fn edges_are_repeated(luma: Seq<u8>, stride: int, width: int, height: int, m: int, d: int)
    requires
        0 <= stride,
        0 <= m < height,
        5 <= width,
        (height - 1) * stride + width <= luma.len(),
        -2 <= d <= 2,
    ensures
        ({
            let r = if m + d < 0 {
                0
            } else if m + d >= height {
                height - 1
            } else {
                m + d
            };
            &&& row_blurred(luma, stride, width, height, m, d, 0) == 11 * sample(luma, stride, r, 0) + 4 * sample(
                luma,
                stride,
                r,
                1,
            ) + sample(luma, stride, r, 2)
            &&& row_blurred(luma, stride, width, height, m, d, width - 1) == 11 * sample(luma, stride, r, width - 1) + 4
                * sample(luma, stride, r, width - 2) + sample(luma, stride, r, width - 3)
        }),
{
    let r = if m + d < 0 {
        0
    } else if m + d >= height {
        height - 1
    } else {
        m + d
    };
    assert(0 <= r * stride && r * stride <= (height - 1) * stride) by (nonlinear_arith)
        requires
            0 <= r <= height - 1,
            0 <= stride,
    ;
    let row = row_of(luma, stride, r);
    assert(row[0] == luma[r * stride + 0]);
    assert(row[1] == luma[r * stride + 1]);
    assert(row[2] == luma[r * stride + 2]);
    assert(row[width - 1] == luma[r * stride + (width - 1)]);
    assert(row[width - 2] == luma[r * stride + (width - 2)]);
    assert(row[width - 3] == luma[r * stride + (width - 3)]);
}

/// A plane with an even slope has that slope for its gradient, twice over,
/// since the neighbours on both sides are two samples apart.
pub proof fn gradients_are_twice_the_slope(src: Seq<u8>, stride: int, y: int, x: int, a: int, b: int, c: int)
    requires
        forall|r: int, k: int|
            y - 1 <= r <= y + 1 && x - 1 <= k <= x + 1 ==> sample(src, stride, r, k) == #[trigger] (a * k) + #[trigger] (b * r) + c,
    ensures
        grad_x(src, stride, y, x) == 2 * a,
        grad_y(src, stride, y, x) == 2 * b,
{
    let f = |r: int, k: int| a * k + b * r + c;
    assert(sample(src, stride, y, x + 1) == a * (x + 1) + b * y + c);
    assert(sample(src, stride, y, x - 1) == a * (x - 1) + b * y + c);
    assert(sample(src, stride, y + 1, x) == a * x + b * (y + 1) + c);
    assert(sample(src, stride, y - 1, x) == a * x + b * (y - 1) + c);
    assert(a * (x + 1) - a * (x - 1) == 2 * a && b * (y + 1) - b * (y - 1) == 2 * b) by (nonlinear_arith);
}

/// Every sample that has all four neighbours lies in the tile at its row and
/// column over sixteen, and there are as many tiles as that takes.
pub proof fn tiles_hold_every_gradient(width: int, height: int, y: int, x: int)
    requires
        1 <= y < height - 1,
        1 <= x < width - 1,
    ensures
        ({
            let t = tile_at(width, height, (y - 1) / 16, (x - 1) / 16);
            &&& (y - 1) / 16 < tiles_along(height)
            &&& (x - 1) / 16 < tiles_along(width)
            &&& t.y <= y < t.y + t.h
            &&& t.x <= x < t.x + t.w
            &&& t.y + t.h <= height - 1
            &&& t.x + t.w <= width - 1
        }),
{
}

proof fn lemma_even_total(f: spec_fn(int) -> int, v: int, n: int)
    requires
        0 <= n,
        forall|k: int| 0 <= k < n ==> #[trigger] f(k) == v,
    ensures
        total(f, n) == n * v,
    decreases n,
{
    if n > 0 {
        lemma_even_total(f, v, n - 1);
        assert(n * v == (n - 1) * v + v) by (nonlinear_arith);
    } else {
        assert(n * v == 0) by (nonlinear_arith)
            requires
                n == 0,
        ;
    }
}

/// A tile of even slope sums the squares and the product of its gradients, one
/// for each sample.
pub proof fn even_tiles_sum_their_slope(g: TileGradient, src: Seq<u8>, stride: int, t: Tile, gx: int, gy: int)
    requires
        is_tile_gradient(g, src, stride, t),
        0 < t.w,
        0 < t.h,
        forall|y: int, x: int|
            t.y <= y < t.y + t.h && t.x <= x < t.x + t.w ==> #[trigger] grad_x(src, stride, y, x) == gx,
        forall|y: int, x: int|
            t.y <= y < t.y + t.h && t.x <= x < t.x + t.w ==> #[trigger] grad_y(src, stride, y, x) == gy,
    ensures
        g.xx == (t.w * t.h) * (gx * gx),
        g.yy == (t.w * t.h) * (gy * gy),
        g.xy == (t.w * t.h) * (gx * gy),
{
    let n = t.w * t.h;
    assert(n >= 0) by (nonlinear_arith)
        requires
            n == t.w * t.h,
            t.w > 0,
            t.h > 0,
    ;
    assert forall|i: int| 0 <= i < n implies {
        &&& grad_x(src, stride, t.y + #[trigger] (i / t.w), t.x + i % t.w) == gx
        &&& grad_y(src, stride, t.y + i / t.w, t.x + i % t.w) == gy
    } by {
        crate::arith::lemma_raster_split(i, t.w, t.h);
    }
    assert forall|i: int| 0 <= i < n implies #[trigger] xx_terms(src, stride, t)(i) == gx * gx by {
        let row = i / t.w;
    }
    assert forall|i: int| 0 <= i < n implies #[trigger] yy_terms(src, stride, t)(i) == gy * gy by {
        let row = i / t.w;
    }
    assert forall|i: int| 0 <= i < n implies #[trigger] xy_terms(src, stride, t)(i) == gx * gy by {
        let row = i / t.w;
    }
    lemma_even_total(xx_terms(src, stride, t), gx * gx, n);
    lemma_even_total(yy_terms(src, stride, t), gy * gy, n);
    lemma_even_total(xy_terms(src, stride, t), gx * gy, n);
}

/// `b` is `a`, brighter by `v` all over.
pub open spec fn brighter(a: Seq<u8>, b: Seq<u8>, v: int) -> bool {
    &&& b.len() == a.len()
    &&& forall|k: int| #[trigger] b[k] == a[k] + v
}

proof fn lemma_shifted_total(f: spec_fn(int) -> int, g: spec_fn(int) -> int, v: int, n: int)
    requires
        0 <= n,
        forall|k: int| 0 <= k < n ==> #[trigger] g(k) == f(k) + v,
    ensures
        total(g, n) == total(f, n) + n * v,
    decreases n,
{
    if n > 0 {
        lemma_shifted_total(f, g, v, n - 1);
        assert(n * v == (n - 1) * v + v) by (nonlinear_arith);
    } else {
        assert(n * v == 0) by (nonlinear_arith)
            requires
                n == 0,
        ;
    }
}

/// A block that is brighter all over has a brighter mean, and deviates from it
/// as before.
pub proof fn brightness_is_no_deviation(a: Seq<u8>, b: Seq<u8>, v: int, stride: int, r: int, c: int)
    requires
        brighter(a, b, v),
    ensures
        block_mean(b, stride, r, c) == block_mean(a, stride, r, c) + v,
        block_deviation(b, stride, r, c) == block_deviation(a, stride, r, c),
{
    lemma_shifted_total(block_terms(a, stride, r, c), block_terms(b, stride, r, c), v, 64);
    let s = total(block_terms(a, stride, r, c), 64);
    assert((s + 64 * v) / 64 == s / 64 + v);
    assert forall|i: int| 0 <= i < 64 implies #[trigger] deviation_terms(b, stride, r, c)(i) == deviation_terms(
        a,
        stride,
        r,
        c,
    )(i) + 0 by {
        let k = pos(8 * r * stride + 8 * c, stride, 8, i);
        assert(b[k] == a[k] + v);
    }
    lemma_shifted_total(deviation_terms(a, stride, r, c), deviation_terms(b, stride, r, c), 0, 64);
}

/// The mean of a block is within one of its samples' 64th part, and a block's
/// deviation counts every sample's distance from it.
pub proof fn deviation_counts_every_sample(src: Seq<u8>, stride: int, r: int, c: int, y: int, x: int)
    requires
        0 <= y < 8,
        0 <= x < 8,
    ensures
        deviation_terms(src, stride, r, c)(8 * y + x) == {
            let d = src[(8 * r * stride + 8 * c) + y * stride + x] - block_mean(src, stride, r, c);
            if d >= 0 {
                d
            } else {
                -d
            }
        },
        64 * block_mean(src, stride, r, c) <= total(block_terms(src, stride, r, c), 64) < 64 * block_mean(
            src,
            stride,
            r,
            c,
        ) + 64,
        block_terms(src, stride, r, c)(8 * y + x) == src[(8 * r * stride + 8 * c) + y * stride + x],
{
    assert((8 * y + x) / 8 == y && (8 * y + x) % 8 == x);
}

/// The deviation of a picture is that of its samples on average: a picture
/// whose whole blocks all deviate alike deviates as they do.
pub proof fn deviation_is_an_average(src: Seq<u8>, width: int, height: int, stride: int, each: int)
    requires
        8 <= width,
        8 <= height,
        0 <= each,
        forall|r: int, c: int|
            0 <= r < height / 8 && 0 <= c < width / 8 ==> #[trigger] block_deviation(src, stride, r, c) == each,
    ensures
        64 * average_deviation(src, width, height, stride) <= each < 64 * average_deviation(src, width, height, stride)
            + 64,
{
    let (rows, cols) = (height / 8, width / 8);
    let n = rows * cols;
    assert(n >= 1) by (nonlinear_arith)
        requires
            n == rows * cols,
            rows >= 1,
            cols >= 1,
    ;
    assert forall|b: int| 0 <= b < n implies #[trigger] picture_terms(src, stride, cols)(b) == each by {
        assert(rows * cols == cols * rows) by (nonlinear_arith);
        crate::arith::lemma_raster_split(b, cols, rows);
        assert(block_deviation(src, stride, b / cols, b % cols) == each);
    }
    lemma_even_total(picture_terms(src, stride, cols), each, n);
    let q = (n * each) / (n * 64);
    lemma_fundamental_div_mod(n * each, n * 64);
    let m = (n * each) % (n * 64);
    assert(64 * q <= each < 64 * q + 64) by (nonlinear_arith)
        requires
            n * each == (n * 64) * q + m,
            0 <= m < n * 64,
            n >= 1,
    ;
    assert(rows * cols * 64 == n * 64);
}

/// A sharpened picture is sharpened sample by sample against its low-pass
/// version, and what lies beyond its width in the plane is kept.
pub proof fn pictures_are_sharpened_in_place(
    a: Seq<u8>,
    b: Seq<u8>,
    blur: Seq<u8>,
    width: int,
    height: int,
    stride: int,
    amount: int,
    max_delta: int,
    r: int,
    c: int,
)
    requires
        frame_sharpened(a, b, blur, width, height, stride, amount, max_delta),
        0 <= r,
        0 <= c < stride,
        0 <= r * stride + c < a.len(),
    ensures
        r < height && c < width ==> b[r * stride + c] == sharpened(
            a[r * stride + c] as int,
            blur[r * width + c] as int,
            amount,
            max_delta,
        ),
        r >= height || c >= width ==> b[r * stride + c] == a[r * stride + c],
{
    lemma_fundamental_div_mod_converse(r * stride + c, stride, r, c);
}

/// A vertical pass weighs five entries 1, 4, 6, 4, 1.
pub proof fn columns_are_weighed(a: i16, b: i16, c: i16, d: i16, e: i16)
    requires
        0 <= a,
        0 <= b,
        0 <= c,
        0 <= d,
        0 <= e,
    ensures
        column_sum(a, b, c, d, e) == a + 4 * b + 6 * c + 4 * d + e,
{
}

} // verus!
