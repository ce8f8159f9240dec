//! The filter kernels: how much each prediction of a block weighs, and the
//! weighted mean that replaces its samples.

use vstd::arithmetic::div_mod::lemma_div_is_ordered;
use vstd::arithmetic::mul::{lemma_mul_inequality, lemma_mul_is_commutative, lemma_mul_nonnegative};
use vstd::prelude::*;

use crate::arith::{abs_i32, lemma_raster_index, low_u16, low_u32, max_int, min_int, shr_u32, shr_usize, total};
use crate::pixel::Pixel;
use crate::raster::{inside, lemma_next_row, lemma_pos, pos};
use crate::temporal_filtering::weights::{sqrt_fast, sqrt_spec, EXPF_TAB_FP16};

verus! {

/// Width of a filter block.
pub const TF_BW: usize = 64;

/// Height of a filter block.
pub const TF_BH: usize = 64;

/// Weight of the frame itself.
pub const TF_PLANEWISE_FILTER_WEIGHT_SCALE: u32 = 1000;

/// Largest weight of a prediction.
pub const TF_WEIGHT_SCALE: u32 = 1000;

/// Weight of a window's error against that of its block.
pub const TF_WINDOW_BLOCK_BALANCE_WEIGHT: u32 = 5;

/// Number of 32-bit values.
pub open spec fn m32() -> int {
    0x1_0000_0000
}

/// Squared differences of two blocks.
pub open spec fn error_terms<P: Pixel>(
    s: Seq<P>,
    s_off: int,
    s_stride: int,
    p: Seq<P>,
    p_off: int,
    p_stride: int,
    w: int,
) -> spec_fn(int) -> int {
    |i: int|
        (s[pos(s_off, s_stride, w, i)].val() - p[pos(p_off, p_stride, w, i)].val()) * (s[pos(
            s_off,
            s_stride,
            w,
            i,
        )].val() - p[pos(p_off, p_stride, w, i)].val())
}

fn squared_errors<P: Pixel>(
    s: &[P],
    s_off: usize,
    s_stride: usize,
    p: &[P],
    p_off: usize,
    p_stride: usize,
    w: usize,
    h: usize,
) -> (r: u32)
    requires
        inside(s@.len() as int, s_off as int, s_stride as int, w as int, h as int),
        inside(p@.len() as int, p_off as int, p_stride as int, w as int, h as int),
    ensures
        r == total(
            error_terms(s@, s_off as int, s_stride as int, p@, p_off as int, p_stride as int, w as int),
            w * h,
        ) % m32(),
{
    let ghost f = error_terms(s@, s_off as int, s_stride as int, p@, p_off as int, p_stride as int, w as int);
    let s_len: usize = s.len();
    let p_len: usize = p.len();
    let mut sum: u32 = 0;
    let mut i: usize = 0;
    proof {
        assert(0 * w == 0);
    }
    while i < h
        invariant
            i <= h,
            s_len == s@.len(),
            p_len == p@.len(),
            inside(s_len as int, s_off as int, s_stride as int, w as int, h as int),
            inside(p_len as int, p_off as int, p_stride as int, w as int, h as int),
            f == error_terms(s@, s_off as int, s_stride as int, p@, p_off as int, p_stride as int, w as int),
            sum == total(f, i * w) % m32(),
        decreases h - i,
    {
        let mut j: usize = 0;
        while j < w
            invariant
                i < h,
                j <= w,
                s_len == s@.len(),
                p_len == p@.len(),
                inside(s_len as int, s_off as int, s_stride as int, w as int, h as int),
                inside(p_len as int, p_off as int, p_stride as int, w as int, h as int),
                f == error_terms(s@, s_off as int, s_stride as int, p@, p_off as int, p_stride as int, w as int),
                sum == total(f, i * w + j) % m32(),
            decreases w - j,
        {
            proof {
                lemma_pos(s_len as int, s_off as int, s_stride as int, w as int, h as int, i as int, j as int);
                lemma_pos(p_len as int, p_off as int, p_stride as int, w as int, h as int, i as int, j as int);
            }
            let a: P = s[s_off + i * s_stride + j];
            let b: P = p[p_off + i * p_stride + j];
            proof {
                a.bounded();
                b.bounded();
            }
            let d: i32 = abs_i32(a.value() as i32 - b.value() as i32);
            proof {
                assert(0 <= d * d <= 0xffff * 0xffff) by (nonlinear_arith)
                    requires
                        0 <= d <= 0xffff,
                ;
                let e = a.val() - b.val();
                assert(e * e == d * d) by (nonlinear_arith)
                    requires
                        e == d || e == -d,
                ;
                assert(f(i * w + j) == d * d);
            }
            sum = low_u32(sum as u64 + d as u64 * d as u64);
            j = j + 1;
        }
        proof {
            lemma_next_row(i as int, w as int);
        }
        i = i + 1;
    }
    proof {
        lemma_mul_is_commutative(w as int, h as int);
    }
    sum
}

/// Sum of the squared differences of two blocks, modulo `2^32`.
pub fn calculate_squared_errors_sum(
    s: &[u8],
    s_stride: usize,
    p: &[u8],
    p_stride: usize,
    w: usize,
    h: usize,
) -> (r: u32)
    requires
        inside(s@.len() as int, 0, s_stride as int, w as int, h as int),
        inside(p@.len() as int, 0, p_stride as int, w as int, h as int),
    ensures
        r == total(error_terms(s@, 0, s_stride as int, p@, 0, p_stride as int, w as int), w * h) % m32(),
{
    squared_errors(s, 0, s_stride, p, 0, p_stride, w, h)
}

/// The same for wide samples, scaled down by `2^shift_factor`.
pub fn calculate_squared_errors_sum_highbd(
    s: &[u16],
    s_stride: usize,
    p: &[u16],
    p_stride: usize,
    w: usize,
    h: usize,
    shift_factor: u32,
) -> (r: u32)
    requires
        shift_factor < 32,
        inside(s@.len() as int, 0, s_stride as int, w as int, h as int),
        inside(p@.len() as int, 0, p_stride as int, w as int, h as int),
    ensures
        r == crate::arith::shr_int(
            total(error_terms(s@, 0, s_stride as int, p@, 0, p_stride as int, w as int), w * h) % m32(),
            shift_factor as nat,
        ),
{
    shr_u32(squared_errors(s, 0, s_stride, p, 0, p_stride, w, h), shift_factor)
}

/// Unsigned division.
pub fn od_divu(x: u32, d: u32) -> (r: u32)
    requires
        d != 0,
    ensures
        r == x / d,
{
    x / d
}

/// A plane of a block seeded with the frame itself: every sample at full
/// weight, row by row without gaps; entries beyond the block are kept.
pub open spec fn seeded<P: Pixel>(
    src: Seq<P>,
    stride: int,
    w: int,
    n: int,
    accum0: Seq<u32>,
    accum: Seq<u32>,
    count0: Seq<u16>,
    count: Seq<u16>,
) -> bool {
    &&& accum.len() == accum0.len()
    &&& count.len() == count0.len()
    &&& forall|k: int|
        0 <= k < accum.len() ==> #[trigger] accum[k] == if k < n {
            1000 * src[pos(0, stride, w, k)].val()
        } else {
            accum0[k] as int
        }
    &&& forall|k: int|
        0 <= k < count.len() ==> #[trigger] count[k] == if k < n {
            1000u16
        } else {
            count0[k]
        }
}

fn seed_plane<P: Pixel>(
    src: &[P],
    stride: usize,
    w: usize,
    h: usize,
    accum: &mut Vec<u32>,
    count: &mut Vec<u16>,
)
    requires
        inside(src@.len() as int, 0, stride as int, w as int, h as int),
        w * h <= old(accum)@.len(),
        w * h <= old(count)@.len(),
    ensures
        seeded(
            src@,
            stride as int,
            w as int,
            w * h,
            old(accum)@,
            final(accum)@,
            old(count)@,
            final(count)@,
        ),
{
    let ghost accum0 = accum@;
    let ghost count0 = count@;
    let s_len: usize = src.len();
    let a_len: usize = accum.len();
    let mut k: usize = 0;
    let mut i: usize = 0;
    proof {
        assert(0 * w == 0);
    }
    while i < h
        invariant
            i <= h,
            k == i * w,
            s_len == src@.len(),
            a_len == accum0.len(),
            inside(s_len as int, 0, stride as int, w as int, h as int),
            w * h <= accum0.len(),
            w * h <= count0.len(),
            i * w <= w * h,
            seeded(src@, stride as int, w as int, i * w, accum0, accum@, count0, count@),
        decreases h - i,
    {
        let mut j: usize = 0;
        proof {
            if w > 0 {
                lemma_pos(s_len as int, 0, stride as int, w as int, h as int, i as int, 0);
            }
        }
        while j < w
            invariant
                i < h,
                j <= w,
                k == i * w + j,
                s_len == src@.len(),
                a_len == accum0.len(),
                inside(s_len as int, 0, stride as int, w as int, h as int),
                w * h <= accum0.len(),
                w * h <= count0.len(),
                seeded(src@, stride as int, w as int, i * w + j, accum0, accum@, count0, count@),
            decreases w - j,
        {
            proof {
                lemma_pos(s_len as int, 0, stride as int, w as int, h as int, i as int, j as int);
            }
            let v: P = src[i * stride + j];
            proof {
                v.bounded();
            }
            accum[k] = TF_PLANEWISE_FILTER_WEIGHT_SCALE * v.value();
            count[k] = 1000;
            k = k + 1;
            j = j + 1;
        }
        proof {
            lemma_next_row(i as int, w as int);
            lemma_mul_inequality(i + 1, h as int, w as int);
            lemma_mul_is_commutative(w as int, h as int);
        }
        i = i + 1;
    }
    proof {
        lemma_mul_is_commutative(w as int, h as int);
    }
}

/// A chroma side, or the distance of chroma rows.
pub open spec fn chroma(x: int, ss: int) -> int {
    crate::arith::shr_int(x, ss as nat)
}

/// The planes of a block seeded with the frame itself; chroma is left alone
/// unless it is filtered.
pub open spec fn block_seeded<P: Pixel>(
    tf_chroma: bool,
    y: Seq<P>,
    u: Seq<P>,
    v: Seq<P>,
    stride: int,
    w: int,
    h: int,
    ss_x: int,
    ss_y: int,
    accum0: [Vec<u32>; 3],
    accum: [Vec<u32>; 3],
    count0: [Vec<u16>; 3],
    count: [Vec<u16>; 3],
) -> bool {
    let cw = chroma(w, ss_x);
    let ch = chroma(h, ss_y);
    let cs = chroma(stride, ss_x);
    &&& seeded(y, stride, w, w * h, accum0[0]@, accum[0]@, count0[0]@, count[0]@)
    &&& if tf_chroma {
        &&& seeded(u, cs, cw, cw * ch, accum0[1]@, accum[1]@, count0[1]@, count[1]@)
        &&& seeded(v, cs, cw, cw * ch, accum0[2]@, accum[2]@, count0[2]@, count[2]@)
    } else {
        &&& accum[1] == accum0[1] && accum[2] == accum0[2]
        &&& count[1] == count0[1] && count[2] == count0[2]
    }
}

/// The planes a block is seeded from and into are large enough.
pub open spec fn seed_inputs<P: Pixel>(
    tf_chroma: bool,
    y: Seq<P>,
    u: Seq<P>,
    v: Seq<P>,
    stride: int,
    w: int,
    h: int,
    ss_x: int,
    ss_y: int,
    accum: [Vec<u32>; 3],
    count: [Vec<u16>; 3],
) -> bool {
    let cw = chroma(w, ss_x);
    let ch = chroma(h, ss_y);
    let cs = chroma(stride, ss_x);
    &&& 0 <= ss_x < 32 && 0 <= ss_y < 32
    &&& inside(y.len() as int, 0, stride, w, h)
    &&& w * h <= accum[0]@.len() && w * h <= count[0]@.len()
    &&& tf_chroma ==> {
        &&& inside(u.len() as int, 0, cs, cw, ch)
        &&& inside(v.len() as int, 0, cs, cw, ch)
        &&& cw * ch <= accum[1]@.len() && cw * ch <= count[1]@.len()
        &&& cw * ch <= accum[2]@.len() && cw * ch <= count[2]@.len()
    }
}

fn central<P: Pixel>(
    tf_chroma: bool,
    src_y: &[P],
    src_u: &[P],
    src_v: &[P],
    src_stride_y: usize,
    accum: &mut [Vec<u32>; 3],
    count: &mut [Vec<u16>; 3],
    blk_width: usize,
    blk_height: usize,
    ss_x: u32,
    ss_y: u32,
)
    requires
        seed_inputs(
            tf_chroma,
            src_y@,
            src_u@,
            src_v@,
            src_stride_y as int,
            blk_width as int,
            blk_height as int,
            ss_x as int,
            ss_y as int,
            *old(accum),
            *old(count),
        ),
    ensures
        block_seeded(
            tf_chroma,
            src_y@,
            src_u@,
            src_v@,
            src_stride_y as int,
            blk_width as int,
            blk_height as int,
            ss_x as int,
            ss_y as int,
            *old(accum),
            *final(accum),
            *old(count),
            *final(count),
        ),
{
    seed_plane(src_y, src_stride_y, blk_width, blk_height, &mut accum[0], &mut count[0]);
    if tf_chroma {
        let w: usize = shr_usize(blk_width, ss_x);
        let h: usize = shr_usize(blk_height, ss_y);
        let stride: usize = shr_usize(src_stride_y, ss_x);
        seed_plane(src_u, stride, w, h, &mut accum[1], &mut count[1]);
        seed_plane(src_v, stride, w, h, &mut accum[2], &mut count[2]);
    }
}

/// Seeds the planes of a block with the frame itself.
pub fn apply_filtering_central(
    tf_chroma: bool,
    src_y: &[u8],
    src_u: &[u8],
    src_v: &[u8],
    src_stride_y: usize,
    accum: &mut [Vec<u32>; 3],
    count: &mut [Vec<u16>; 3],
    blk_width: usize,
    blk_height: usize,
    ss_x: u32,
    ss_y: u32,
)
    requires
        seed_inputs(
            tf_chroma,
            src_y@,
            src_u@,
            src_v@,
            src_stride_y as int,
            blk_width as int,
            blk_height as int,
            ss_x as int,
            ss_y as int,
            *old(accum),
            *old(count),
        ),
    ensures
        block_seeded(
            tf_chroma,
            src_y@,
            src_u@,
            src_v@,
            src_stride_y as int,
            blk_width as int,
            blk_height as int,
            ss_x as int,
            ss_y as int,
            *old(accum),
            *final(accum),
            *old(count),
            *final(count),
        ),
{
    central(tf_chroma, src_y, src_u, src_v, src_stride_y, accum, count, blk_width, blk_height, ss_x, ss_y);
}

/// Seeds the planes of a block of wide samples with the frame itself.
pub fn apply_filtering_central_highbd(
    tf_chroma: bool,
    src_y: &[u16],
    src_u: &[u16],
    src_v: &[u16],
    src_stride_y: usize,
    accum: &mut [Vec<u32>; 3],
    count: &mut [Vec<u16>; 3],
    blk_width: usize,
    blk_height: usize,
    ss_x: u32,
    ss_y: u32,
)
    requires
        seed_inputs(
            tf_chroma,
            src_y@,
            src_u@,
            src_v@,
            src_stride_y as int,
            blk_width as int,
            blk_height as int,
            ss_x as int,
            ss_y as int,
            *old(accum),
            *old(count),
        ),
    ensures
        block_seeded(
            tf_chroma,
            src_y@,
            src_u@,
            src_v@,
            src_stride_y as int,
            blk_width as int,
            blk_height as int,
            ss_x as int,
            ss_y as int,
            *old(accum),
            *final(accum),
            *old(count),
            *final(count),
        ),
{
    central(tf_chroma, src_y, src_u, src_v, src_stride_y, accum, count, blk_width, blk_height, ss_x, ss_y);
}

/// A weighted sum over its weight, to the nearest integer.
pub open spec fn weighted_mean(accum: int, count: int) -> int {
    (accum + count / 2) / count
}

/// The sample belongs to the `w` by `h` block at `off`.
pub open spec fn in_rect(k: int, off: int, stride: int, w: int, h: int) -> bool {
    off <= k && (k - off) / stride < h && (k - off) % stride < w
}

/// `new` is `old_buf` with the weighted means of a block in its place.
pub open spec fn averaged<P: Pixel>(
    old_buf: Seq<P>,
    new: Seq<P>,
    off: int,
    stride: int,
    w: int,
    h: int,
    accum: Seq<u32>,
    count: Seq<u16>,
) -> bool {
    &&& new.len() == old_buf.len()
    &&& forall|k: int|
        0 <= k < new.len() ==> if in_rect(k, off, stride, w, h) {
            let i = ((k - off) / stride) * w + (k - off) % stride;
            (#[trigger] new[k]).val() == weighted_mean(accum[i] as int, count[i] as int) % P::range()
        } else {
            new[k] == old_buf[k]
        }
}

/// The sums of the first `n` samples of a block can be averaged.
pub open spec fn can_average(accum: Seq<u32>, count: Seq<u16>, n: int) -> bool {
    &&& n <= accum.len()
    &&& n <= count.len()
    &&& forall|i: int| 0 <= i < n ==> (#[trigger] count[i]) > 0 && accum[i] + count[i] / 2 <= u32::MAX
}

fn average_plane<P: Pixel>(
    dst: &mut Vec<P>,
    off: usize,
    stride: usize,
    w: usize,
    h: usize,
    accum: &Vec<u32>,
    count: &Vec<u16>,
)
    requires
        0 < w <= stride,
        h > 0,
        off + (h - 1) * stride + w <= old(dst)@.len(),
        can_average(accum@, count@, w * h),
    ensures
        averaged(
            old(dst)@,
            final(dst)@,
            off as int,
            stride as int,
            w as int,
            h as int,
            accum@,
            count@,
        ),
{
    let ghost dst0 = dst@;
    let len: usize = dst.len();
    let a_len: usize = accum.len();
    let mut i: usize = 0;
    while i < h
        invariant
            i <= h,
            0 < w <= stride,
            len == dst0.len(),
            a_len == accum@.len(),
            off + (h - 1) * stride + w <= len,
            can_average(accum@, count@, w * h),
            averaged(dst0, dst@, off as int, stride as int, w as int, i as int, accum@, count@),
        decreases h - i,
    {
        let mut j: usize = 0;
        while j < w
            invariant
                i < h,
                j <= w,
                0 < w <= stride,
                len == dst0.len(),
                a_len == accum@.len(),
                off + (h - 1) * stride + w <= len,
                can_average(accum@, count@, w * h),
                dst@.len() == len,
                forall|k: int|
                    0 <= k < len ==> if in_rect(k, off as int, stride as int, w as int, i as int) || (in_rect(
                        k,
                        off as int,
                        stride as int,
                        j as int,
                        i + 1,
                    )) {
                        let n = ((k - off) / (stride as int)) * w + (k - off) % (stride as int);
                        (#[trigger] dst@[k]).val() == weighted_mean(accum@[n] as int, count@[n] as int)
                            % P::range()
                    } else {
                        dst@[k] == dst0[k]
                    },
            decreases w - j,
        {
            proof {
                lemma_pos(len as int, off as int, stride as int, w as int, h as int, i as int, j as int);
                lemma_raster_index(i as int, j as int, stride as int);
            }
            let ghost before = dst@;
            let at: usize = off + i * stride + j;
            let n: usize = i * w + j;
            let c: u32 = count[n] as u32;
            let a: u32 = accum[n];
            assert(count@[n as int] > 0 && accum@[n as int] + count@[n as int] / 2 <= u32::MAX);
            dst[at] = P::low(od_divu(a + c / 2, c));
            proof {
                assert forall|k: int| 0 <= k < len implies if in_rect(
                    k,
                    off as int,
                    stride as int,
                    w as int,
                    i as int,
                ) || (in_rect(k, off as int, stride as int, j + 1, i + 1)) {
                    let n = ((k - off) / (stride as int)) * w + (k - off) % (stride as int);
                    (#[trigger] dst@[k]).val() == weighted_mean(accum@[n] as int, count@[n] as int) % P::range()
                } else {
                    dst@[k] == dst0[k]
                } by {
                    if k == at {
                    } else {
                        assert(dst@[k] == before[k]);
                        if off <= k {
                            lemma_same_cell(k - off, at - off, stride as int);
                        }
                    }
                }
            }
            j = j + 1;
        }
        i = i + 1;
    }
}

proof fn lemma_same_cell(a: int, b: int, stride: int)
    requires
        stride > 0,
    ensures
        a / stride == b / stride && a % stride == b % stride ==> a == b,
{
    vstd::arithmetic::div_mod::lemma_fundamental_div_mod(a, stride);
    vstd::arithmetic::div_mod::lemma_fundamental_div_mod(b, stride);
}

/// The planes of a block averaged in place: a luma block of 64x64, and its
/// chroma where it is filtered.
pub open spec fn block_averaged<P: Pixel>(
    tf_chroma: bool,
    old_planes: [Vec<P>; 3],
    new: [Vec<P>; 3],
    accum: [Vec<u32>; 3],
    count: [Vec<u16>; 3],
    stride: Seq<usize>,
    y_off: int,
    c_off: int,
    cw: int,
    ch: int,
) -> bool {
    &&& averaged(old_planes[0]@, new[0]@, y_off, stride[0] as int, 64, 64, accum[0]@, count[0]@)
    &&& if tf_chroma {
        &&& averaged(old_planes[1]@, new[1]@, c_off, stride[1] as int, cw, ch, accum[1]@, count[1]@)
        &&& averaged(old_planes[2]@, new[2]@, c_off, stride[1] as int, cw, ch, accum[2]@, count[2]@)
    } else {
        new[1] == old_planes[1] && new[2] == old_planes[2]
    }
}

/// The planes of a block can be averaged in place.
pub open spec fn average_inputs<P: Pixel>(
    tf_chroma: bool,
    planes: [Vec<P>; 3],
    accum: [Vec<u32>; 3],
    count: [Vec<u16>; 3],
    stride: Seq<usize>,
    y_off: int,
    c_off: int,
    cw: int,
    ch: int,
) -> bool {
    &&& 64 <= stride[0]
    &&& y_off + 63 * stride[0] + 64 <= planes[0]@.len()
    &&& can_average(accum[0]@, count[0]@, 4096)
    &&& tf_chroma ==> {
        &&& 0 < cw <= stride[1]
        &&& 0 < ch
        &&& c_off + (ch - 1) * stride[1] + cw <= planes[1]@.len()
        &&& c_off + (ch - 1) * stride[1] + cw <= planes[2]@.len()
        &&& can_average(accum[1]@, count[1]@, cw * ch)
        &&& can_average(accum[2]@, count[2]@, cw * ch)
    }
}

fn average_block<P: Pixel>(
    tf_chroma: bool,
    planes: &mut [Vec<P>; 3],
    accum: &[Vec<u32>; 3],
    count: &[Vec<u16>; 3],
    stride: &[usize; 3],
    blk_y_src_offset: usize,
    blk_ch_src_offset: usize,
    blk_width_ch: usize,
    blk_height_ch: usize,
)
    requires
        average_inputs(
            tf_chroma,
            *old(planes),
            *accum,
            *count,
            stride@,
            blk_y_src_offset as int,
            blk_ch_src_offset as int,
            blk_width_ch as int,
            blk_height_ch as int,
        ),
    ensures
        block_averaged(
            tf_chroma,
            *old(planes),
            *final(planes),
            *accum,
            *count,
            stride@,
            blk_y_src_offset as int,
            blk_ch_src_offset as int,
            blk_width_ch as int,
            blk_height_ch as int,
        ),
{
    average_plane(&mut planes[0], blk_y_src_offset, stride[0], TF_BW, TF_BH, &accum[0], &count[0]);
    if tf_chroma {
        average_plane(
            &mut planes[1],
            blk_ch_src_offset,
            stride[1],
            blk_width_ch,
            blk_height_ch,
            &accum[1],
            &count[1],
        );
        average_plane(
            &mut planes[2],
            blk_ch_src_offset,
            stride[1],
            blk_width_ch,
            blk_height_ch,
            &accum[2],
            &count[2],
        );
    }
}

/// Replaces a block by its weighted means.
pub fn get_final_filtered_pixels(
    tf_chroma: bool,
    src_center: &mut [Vec<u8>; 3],
    accum: &[Vec<u32>; 3],
    count: &[Vec<u16>; 3],
    stride: &[usize; 3],
    blk_y_src_offset: usize,
    blk_ch_src_offset: usize,
    blk_width_ch: usize,
    blk_height_ch: usize,
)
    requires
        average_inputs(
            tf_chroma,
            *old(src_center),
            *accum,
            *count,
            stride@,
            blk_y_src_offset as int,
            blk_ch_src_offset as int,
            blk_width_ch as int,
            blk_height_ch as int,
        ),
    ensures
        block_averaged(
            tf_chroma,
            *old(src_center),
            *final(src_center),
            *accum,
            *count,
            stride@,
            blk_y_src_offset as int,
            blk_ch_src_offset as int,
            blk_width_ch as int,
            blk_height_ch as int,
        ),
{
    average_block(
        tf_chroma,
        src_center,
        accum,
        count,
        stride,
        blk_y_src_offset,
        blk_ch_src_offset,
        blk_width_ch,
        blk_height_ch,
    );
}

/// Replaces a block of wide samples by its weighted means.
pub fn get_final_filtered_pixels_highbd(
    tf_chroma: bool,
    altref_highbd: &mut [Vec<u16>; 3],
    accum: &[Vec<u32>; 3],
    count: &[Vec<u16>; 3],
    stride: &[usize; 3],
    blk_y_src_offset: usize,
    blk_ch_src_offset: usize,
    blk_width_ch: usize,
    blk_height_ch: usize,
)
    requires
        average_inputs(
            tf_chroma,
            *old(altref_highbd),
            *accum,
            *count,
            stride@,
            blk_y_src_offset as int,
            blk_ch_src_offset as int,
            blk_width_ch as int,
            blk_height_ch as int,
        ),
    ensures
        block_averaged(
            tf_chroma,
            *old(altref_highbd),
            *final(altref_highbd),
            *accum,
            *count,
            stride@,
            blk_y_src_offset as int,
            blk_ch_src_offset as int,
            blk_width_ch as int,
            blk_height_ch as int,
        ),
{
    average_block(
        tf_chroma,
        altref_highbd,
        accum,
        count,
        stride,
        blk_y_src_offset,
        blk_ch_src_offset,
        blk_width_ch,
        blk_height_ch,
    );
}

/// A block that only the frame itself has contributed to comes out as it
/// went in.
pub proof fn unfiltered_blocks_are_kept<P: Pixel>(
    src: Seq<P>,
    stride: int,
    w: int,
    h: int,
    accum0: Seq<u32>,
    accum: Seq<u32>,
    count0: Seq<u16>,
    count: Seq<u16>,
    out0: Seq<P>,
    out: Seq<P>,
    off: int,
    out_stride: int,
    r: int,
    c: int,
)
    requires
        0 < w <= out_stride,
        0 <= r < h,
        0 <= c < w,
        0 <= off,
        off + (h - 1) * out_stride + w <= out.len(),
        w * h <= accum.len(),
        w * h <= count.len(),
        seeded(src, stride, w, w * h, accum0, accum, count0, count),
        averaged(out0, out, off, out_stride, w, h, accum, count),
    ensures
        out[off + r * out_stride + c].val() == src[pos(0, stride, w, r * w + c)].val(),
{
    let k = off + r * out_stride + c;
    lemma_pos(out.len() as int, off, out_stride, w, h, r, c);
    lemma_raster_index(r, c, out_stride);
    let i = r * w + c;
    let v = src[pos(0, stride, w, i)];
    v.bounded();
    assert(accum[i] == 1000 * v.val());
    assert(count[i] == 1000);
    assert(out[k].val() == weighted_mean(accum[i] as int, count[i] as int) % P::range());
    assert(weighted_mean(1000 * v.val(), 1000) == v.val());
    vstd::arithmetic::div_mod::lemma_small_mod(v.val() as nat, P::range() as nat);
}

/// What the kernels read of the motion of a block.
#[derive(Debug, Clone, Copy)]
pub struct TfKernelCtx {
    /// Column and row of the 32x32 block.
    pub tf_block_col: i32,
    pub tf_block_row: i32,
    /// Displacement from which on a prediction loses weight, in tenths.
    pub tf_mv_dist_th: u32,
    pub tf_chroma: bool,
    /// Nonzero: the 32x32 block is predicted in quarters.
    pub tf_32x32_block_split_flag: [u8; 4],
    pub tf_16x16_mv_x: [i16; 16],
    pub tf_16x16_mv_y: [i16; 16],
    pub tf_16x16_block_error: [u64; 16],
    pub tf_32x32_mv_x: [i16; 4],
    pub tf_32x32_mv_y: [i16; 4],
    pub tf_32x32_block_error: [u64; 4],
    /// Decay factors of the three planes.
    pub tf_decay_factor_fp16: [u32; 3],
}

impl Default for TfKernelCtx {
    fn default() -> (r: Self)
        ensures
            r.tf_block_col == 0,
            r.tf_block_row == 0,
            r.tf_mv_dist_th == 10,
            r.tf_chroma,
            forall|i: int| 0 <= i < 4 ==> #[trigger] r.tf_32x32_block_split_flag[i] == 0,
            forall|i: int| 0 <= i < 16 ==> #[trigger] r.tf_16x16_mv_x[i] == 0,
            forall|i: int| 0 <= i < 16 ==> #[trigger] r.tf_16x16_mv_y[i] == 0,
            forall|i: int| 0 <= i < 16 ==> #[trigger] r.tf_16x16_block_error[i] == 0,
            forall|i: int| 0 <= i < 4 ==> #[trigger] r.tf_32x32_mv_x[i] == 0,
            forall|i: int| 0 <= i < 4 ==> #[trigger] r.tf_32x32_mv_y[i] == 0,
            forall|i: int| 0 <= i < 4 ==> #[trigger] r.tf_32x32_block_error[i] == 0,
            forall|i: int| 0 <= i < 3 ==> #[trigger] r.tf_decay_factor_fp16[i] == 0x1_0000,
    {
        TfKernelCtx {
            tf_block_col: 0,
            tf_block_row: 0,
            tf_mv_dist_th: 10,
            tf_chroma: true,
            tf_32x32_block_split_flag: [0; 4],
            tf_16x16_mv_x: [0; 16],
            tf_16x16_mv_y: [0; 16],
            tf_16x16_block_error: [0; 16],
            tf_32x32_mv_x: [0; 4],
            tf_32x32_mv_y: [0; 4],
            tf_32x32_block_error: [0; 4],
            tf_decay_factor_fp16: [0x1_0000; 3],
        }
    }
}

/// Position of the 32x32 block among the four of its 64x64 block.
pub open spec fn block_index(ctx: TfKernelCtx) -> int {
    ctx.tf_block_col + 2 * ctx.tf_block_row
}

/// Length of a displacement, relative to the threshold and at least one, with
/// eight fraction bits.
pub open spec fn motion_factor(x: int, y: int, th: int) -> int {
    let limit = max_int(((th * 0x1_0000) % m32()) / 10, 0x1_0000);
    max_int((sqrt_spec(((x * x + y * y) * 256) % m32()) * 4096) / (limit / 256), 256)
}

/// The 32x32 block is predicted in quarters.
pub open spec fn is_split(ctx: TfKernelCtx, idx: int) -> bool {
    ctx.tf_32x32_block_split_flag[idx] != 0
}

/// Motion factor of quarter `q`.
pub open spec fn quad_motion(ctx: TfKernelCtx, idx: int, q: int) -> int {
    if is_split(ctx, idx) {
        motion_factor(
            ctx.tf_16x16_mv_x[idx * 4 + q] as int,
            ctx.tf_16x16_mv_y[idx * 4 + q] as int,
            ctx.tf_mv_dist_th as int,
        )
    } else {
        motion_factor(ctx.tf_32x32_mv_x[idx] as int, ctx.tf_32x32_mv_y[idx] as int, ctx.tf_mv_dist_th as int)
    }
}

/// Block error of quarter `q`, brought to the scale of narrow samples.
pub open spec fn quad_block_error(ctx: TfKernelCtx, idx: int, q: int, wide: bool) -> int {
    if is_split(ctx, idx) {
        (ctx.tf_16x16_block_error[idx * 4 + q] as int / (if wide {
            16int
        } else {
            1
        })) % m32()
    } else {
        (ctx.tf_32x32_block_error[idx] as int / (if wide {
            64int
        } else {
            4
        })) % m32()
    }
}

/// The decay factor that is used: doubled for a block in one piece.
pub open spec fn decay_used(ctx: TfKernelCtx, idx: int, decay: int) -> int {
    if is_split(ctx, idx) {
        decay
    } else {
        (2 * decay) % m32()
    }
}

/// The displacements of a block can be squared.
pub open spec fn motion_ok(ctx: TfKernelCtx, idx: int) -> bool {
    &&& forall|i: int|
        0 <= i < 16 ==> (#[trigger] ctx.tf_16x16_mv_x[i]) > i16::MIN || ctx.tf_16x16_mv_y[i] > i16::MIN
    &&& forall|i: int| 0 <= i < 4 ==> (#[trigger] ctx.tf_32x32_mv_x[i]) > i16::MIN || ctx.tf_32x32_mv_y[i] > i16::MIN
}

fn motion(x: i16, y: i16, th: u32) -> (r: u32)
    requires
        x > i16::MIN || y > i16::MIN,
    ensures
        r == motion_factor(x as int, y as int, th as int),
{
    let t: u32 = low_u32(th as u64 * 0x1_0000) / 10;
    let limit: u32 = if t > 0x1_0000 {
        t
    } else {
        0x1_0000
    };
    let ax: i64 = x as i64;
    let ay: i64 = y as i64;
    proof {
        assert(0 <= ax * ax <= 0x4000_0000) by (nonlinear_arith)
            requires
                -0x8000 <= ax <= 0x8000,
        ;
        assert(0 <= ay * ay <= 0x4000_0000) by (nonlinear_arith)
            requires
                -0x8000 <= ay <= 0x8000,
        ;
    }
    let distance: u32 = sqrt_fast(low_u32(((ax * ax + ay * ay) * 256) as u64));
    let f: u32 = (distance * 4096) / (limit / 256);
    if f > 256 {
        f
    } else {
        256
    }
}

/// The motion factors and block errors of the four quarters, and the decay
/// factor that goes with them.
pub struct QuadTerms {
    pub motion: [u32; 4],
    pub block_error: [u32; 4],
    pub decay: u32,
}

fn tf_quadrant_terms(ctx: &TfKernelCtx, idx: usize, decay: u32, wide: bool) -> (r: QuadTerms)
    requires
        idx < 4,
        motion_ok(*ctx, idx as int),
    ensures
        forall|q: int| 0 <= q < 4 ==> #[trigger] r.motion[q] == quad_motion(*ctx, idx as int, q),
        forall|q: int| 0 <= q < 4 ==> #[trigger] r.block_error[q] == quad_block_error(*ctx, idx as int, q, wide),
        r.decay == decay_used(*ctx, idx as int, decay as int),
{
    let mut motion4: [u32; 4] = [0; 4];
    let mut error4: [u32; 4] = [0; 4];
    if ctx.tf_32x32_block_split_flag[idx] != 0 {
        let mut q: usize = 0;
        while q < 4
            invariant
                q <= 4,
                idx < 4,
                is_split(*ctx, idx as int),
                motion_ok(*ctx, idx as int),
                forall|k: int| 0 <= k < q ==> #[trigger] motion4[k] == quad_motion(*ctx, idx as int, k),
                forall|k: int| 0 <= k < q ==> #[trigger] error4[k] == quad_block_error(*ctx, idx as int, k, wide),
            decreases 4 - q,
        {
            let i: usize = idx * 4 + q;
            motion4[q] = motion(ctx.tf_16x16_mv_x[i], ctx.tf_16x16_mv_y[i], ctx.tf_mv_dist_th);
            let e: u64 = ctx.tf_16x16_block_error[i];
            error4[q] = low_u32(if wide {
                e / 16
            } else {
                e
            });
            q = q + 1;
        }
        QuadTerms { motion: motion4, block_error: error4, decay }
    } else {
        let d: u32 = motion(ctx.tf_32x32_mv_x[idx], ctx.tf_32x32_mv_y[idx], ctx.tf_mv_dist_th);
        let e: u64 = ctx.tf_32x32_block_error[idx];
        let b: u32 = low_u32(if wide {
            e / 64
        } else {
            e / 4
        });
        QuadTerms { motion: [d; 4], block_error: [b; 4], decay: low_u32(2 * decay as u64) }
    }
}

/// Weight of a prediction: the larger its error and its displacement against
/// the decay factor, the smaller.
pub open spec fn prediction_weight(window: int, block: int, motion: int, decay: int) -> int {
    let error = (5 * window + block) / 6;
    let scaled = ((error / 8) * (motion / 8)) / max_int(decay / 1024, 1);
    (EXPF_TAB_FP16[min_int(scaled, 112)] * 1000) / 0x1_0000
}

fn weight_of(window: u32, block: u32, motion: u32, decay: u32) -> (r: u32)
    requires
        5 * window + block <= u32::MAX,
    ensures
        r == prediction_weight(window as int, block as int, motion as int, decay as int),
        r <= 1000,
{
    let error: u32 = (window * TF_WINDOW_BLOCK_BALANCE_WEIGHT + block) / 6;
    let a: u64 = (error / 8) as u64;
    let b: u64 = (motion / 8) as u64;
    proof {
        vstd::arithmetic::mul::lemma_mul_upper_bound(a as int, 0x1fff_ffff, b as int, 0x1fff_ffff);
        lemma_mul_nonnegative(a as int, b as int);
    }
    let d: u32 = decay / 1024;
    let divisor: u64 = if d > 1 {
        d as u64
    } else {
        1
    };
    let scaled: u64 = (a * b) / divisor;
    let i: usize = if scaled < 112 {
        scaled as usize
    } else {
        112
    };
    assert(0 <= EXPF_TAB_FP16[i as int] <= 0x1_0000);
    (EXPF_TAB_FP16[i] as u32 * TF_WEIGHT_SCALE) / 0x1_0000
}

/// A prediction never weighs more than the frame itself.
pub proof fn weights_stay_in_range(window: int, block: int, motion: int, decay: int)
    requires
        0 <= window,
        0 <= block,
        0 <= motion,
        0 <= decay,
    ensures
        0 <= prediction_weight(window, block, motion, decay) <= 1000,
{
    let e = ((5 * window + block) / 6) / 8;
    let d = max_int(decay / 1024, 1);
    lemma_mul_nonnegative(e, motion / 8);
    vstd::arithmetic::div_mod::lemma_div_pos_is_pos(e * (motion / 8), d);
    let i = min_int((e * (motion / 8)) / d, 112);
    assert(0 <= EXPF_TAB_FP16[i] <= 0x1_0000);
}

/// A closer prediction never weighs less.
pub proof fn weight_falls_with_the_error(w1: int, w2: int, block: int, motion: int, decay: int)
    requires
        0 <= w1 <= w2,
        0 <= block,
        0 <= motion,
        0 <= decay,
    ensures
        prediction_weight(w2, block, motion, decay) <= prediction_weight(w1, block, motion, decay),
{
    let e1 = ((5 * w1 + block) / 6) / 8;
    let e2 = ((5 * w2 + block) / 6) / 8;
    let m = motion / 8;
    let d = max_int(decay / 1024, 1);
    lemma_mul_inequality(e1, e2, m);
    lemma_mul_nonnegative(e1, m);
    lemma_div_is_ordered(e1 * m, e2 * m, d);
    vstd::arithmetic::div_mod::lemma_div_pos_is_pos(e1 * m, d);
    lemma_table_falls(min_int((e1 * m) / d, 112), min_int((e2 * m) / d, 112));
}

pub proof fn lemma_table_falls(i: int, j: int)
    requires
        0 <= i <= j <= 112,
    ensures
        0 <= EXPF_TAB_FP16[j] <= EXPF_TAB_FP16[i],
    decreases j - i,
{
    if i < j {
        lemma_table_falls(i, j - 1);
        lemma_table_step(j);
    }
}

proof fn lemma_table_step(j: int)
    requires
        1 <= j <= 112,
    ensures
        0 <= EXPF_TAB_FP16[j] <= EXPF_TAB_FP16[j - 1],
{
}

/// Sums and weights after a prediction has been added to a rectangle of a
/// plane; the sums wrap.
pub open spec fn rect_added<P: Pixel>(
    pre: Seq<P>,
    stride: int,
    r0: int,
    c0: int,
    h: int,
    w: int,
    weight: int,
    accum0: Seq<u32>,
    accum: Seq<u32>,
    count0: Seq<u16>,
    count: Seq<u16>,
) -> bool {
    &&& accum.len() == accum0.len()
    &&& count.len() == count0.len()
    &&& forall|k: int|
        0 <= k < accum.len() ==> #[trigger] accum[k] == if hit(k, stride, r0, c0, h, w) {
            (accum0[k] + weight * pre[k].val()) % m32()
        } else {
            accum0[k] as int
        }
    &&& forall|k: int|
        0 <= k < count.len() ==> #[trigger] count[k] == if hit(k, stride, r0, c0, h, w) {
            (count0[k] + weight) % 0x1_0000
        } else {
            count0[k] as int
        }
}

/// Sample `k` of a plane lies in the rectangle.
pub open spec fn hit(k: int, stride: int, r0: int, c0: int, h: int, w: int) -> bool {
    r0 <= k / stride < r0 + h && c0 <= k % stride < c0 + w
}

fn add_rect<P: Pixel>(
    pre: &[P],
    stride: usize,
    r0: usize,
    c0: usize,
    h: usize,
    w: usize,
    weight: u32,
    accum: &mut [u32],
    count: &mut [u16],
)
    requires
        weight <= 1000,
        0 < h,
        0 < w,
        c0 + w <= stride,
        (r0 + h - 1) * stride + c0 + w <= pre@.len(),
        (r0 + h - 1) * stride + c0 + w <= old(accum)@.len(),
        (r0 + h - 1) * stride + c0 + w <= old(count)@.len(),
    ensures
        rect_added(
            pre@,
            stride as int,
            r0 as int,
            c0 as int,
            h as int,
            w as int,
            weight as int,
            old(accum)@,
            final(accum)@,
            old(count)@,
            final(count)@,
        ),
{
    let ghost accum0 = accum@;
    let ghost count0 = count@;
    let len: usize = pre.len();
    let mut i: usize = 0;
    while i < h
        invariant
            i <= h,
            weight <= 1000,
            0 < w,
            c0 + w <= stride,
            len == pre@.len(),
            (r0 + h - 1) * stride + c0 + w <= len,
            (r0 + h - 1) * stride + c0 + w <= accum0.len(),
            (r0 + h - 1) * stride + c0 + w <= count0.len(),
            rect_added(
                pre@,
                stride as int,
                r0 as int,
                c0 as int,
                i as int,
                w as int,
                weight as int,
                accum0,
                accum@,
                count0,
                count@,
            ),
        decreases h - i,
    {
        let ghost accum1 = accum@;
        let ghost count1 = count@;
        proof {
            lemma_mul_inequality(r0 + i, r0 + h - 1, stride as int);
            lemma_mul_nonnegative(r0 + i, stride as int);
            lemma_mul_inequality(1, stride as int, r0 + i);
        }
        let row: usize = (r0 + i) * stride;
        let mut j: usize = 0;
        while j < w
            invariant
                i < h,
                j <= w,
                weight <= 1000,
                c0 + w <= stride,
                len == pre@.len(),
                row == (r0 + i) * stride,
                row + c0 + w <= len,
                row + c0 + w <= accum1.len(),
                row + c0 + w <= count1.len(),
                rect_added(
                    pre@,
                    stride as int,
                    r0 + i,
                    c0 as int,
                    1,
                    j as int,
                    weight as int,
                    accum1,
                    accum@,
                    count1,
                    count@,
                ),
            decreases w - j,
        {
            let ghost accum2 = accum@;
            let ghost count2 = count@;
            proof {
                lemma_raster_index(r0 + i, c0 + j, stride as int);
            }
            let k: usize = row + c0 + j;
            let v: P = pre[k];
            proof {
                v.bounded();
                vstd::arithmetic::mul::lemma_mul_upper_bound(weight as int, 1000, v.val(), 0xffff);
                lemma_mul_nonnegative(weight as int, v.val());
            }
            count[k] = low_u16(count[k] as u32 + weight);
            accum[k] = low_u32(accum[k] as u64 + weight as u64 * v.value() as u64);
            proof {
                assert forall|n: int| 0 <= n < accum@.len() implies #[trigger] accum@[n] == if hit(
                    n,
                    stride as int,
                    r0 + i,
                    c0 as int,
                    1,
                    j + 1,
                ) {
                    (accum1[n] + weight * pre@[n].val()) % m32()
                } else {
                    accum1[n] as int
                } by {
                    lemma_same_cell(n, k as int, stride as int);
                    if n != k {
                        assert(accum@[n] == accum2[n]);
                    }
                }
                assert forall|n: int| 0 <= n < count@.len() implies #[trigger] count@[n] == if hit(
                    n,
                    stride as int,
                    r0 + i,
                    c0 as int,
                    1,
                    j + 1,
                ) {
                    (count1[n] + weight) % 0x1_0000
                } else {
                    count1[n] as int
                } by {
                    lemma_same_cell(n, k as int, stride as int);
                    if n != k {
                        assert(count@[n] == count2[n]);
                    }
                }
            }
            j = j + 1;
        }
        proof {
            assert forall|n: int| 0 <= n < accum@.len() implies #[trigger] accum@[n] == if hit(
                n,
                stride as int,
                r0 as int,
                c0 as int,
                i + 1,
                w as int,
            ) {
                (accum0[n] + weight * pre@[n].val()) % m32()
            } else {
                accum0[n] as int
            } by {
                assert(accum1[n] == accum1[n]);
            }
            assert forall|n: int| 0 <= n < count@.len() implies #[trigger] count@[n] == if hit(
                n,
                stride as int,
                r0 as int,
                c0 as int,
                i + 1,
                w as int,
            ) {
                (count0[n] + weight) % 0x1_0000
            } else {
                count0[n] as int
            } by {
                assert(count1[n] == count1[n]);
            }
        }
        i = i + 1;
    }
}

/// Quarter of a block that a sample in row `r` and column `c` belongs to.
pub open spec fn quarter_of(r: int, c: int, hh: int, hw: int) -> int {
    (if r >= hh {
        2int
    } else {
        0
    }) + (if c >= hw {
        1int
    } else {
        0
    })
}

/// Sums and weights after a prediction has been added to the four quarters of
/// a block, each with its own weight.
pub open spec fn block_added<P: Pixel>(
    pre: Seq<P>,
    stride: int,
    hh: int,
    hw: int,
    weights: Seq<int>,
    accum0: Seq<u32>,
    accum: Seq<u32>,
    count0: Seq<u16>,
    count: Seq<u16>,
) -> bool {
    &&& accum.len() == accum0.len()
    &&& count.len() == count0.len()
    &&& forall|k: int|
        0 <= k < accum.len() ==> #[trigger] accum[k] == if hit(k, stride, 0, 0, 2 * hh, 2 * hw) {
            (accum0[k] + weights[quarter_of(k / stride, k % stride, hh, hw)] * pre[k].val()) % m32()
        } else {
            accum0[k] as int
        }
    &&& forall|k: int|
        0 <= k < count.len() ==> #[trigger] count[k] == if hit(k, stride, 0, 0, 2 * hh, 2 * hw) {
            (count0[k] + weights[quarter_of(k / stride, k % stride, hh, hw)]) % 0x1_0000
        } else {
            count0[k] as int
        }
}

fn tf_accumulate<P: Pixel>(
    weights: &[u32; 4],
    pre: &[P],
    stride: usize,
    hh: usize,
    hw: usize,
    accum: &mut [u32],
    count: &mut [u16],
)
    requires
        forall|q: int| 0 <= q < 4 ==> #[trigger] weights[q] <= 1000,
        0 < hh,
        0 < hw,
        2 * hw <= stride,
        (2 * hh - 1) * stride + 2 * hw <= pre@.len(),
        (2 * hh - 1) * stride + 2 * hw <= old(accum)@.len(),
        (2 * hh - 1) * stride + 2 * hw <= old(count)@.len(),
        2 * hh <= usize::MAX,
    ensures
        block_added(
            pre@,
            stride as int,
            hh as int,
            hw as int,
            seq![weights[0] as int, weights[1] as int, weights[2] as int, weights[3] as int],
            old(accum)@,
            final(accum)@,
            old(count)@,
            final(count)@,
        ),
{
    let ghost accum0 = accum@;
    let ghost count0 = count@;
    proof {
        lemma_mul_inequality(hh - 1, 2 * hh - 1, stride as int);
    }
    add_rect(pre, stride, 0, 0, hh, hw, weights[0], accum, count);
    let ghost accum1 = accum@;
    let ghost count1 = count@;
    add_rect(pre, stride, 0, hw, hh, hw, weights[1], accum, count);
    let ghost accum2 = accum@;
    let ghost count2 = count@;
    add_rect(pre, stride, hh, 0, hh, hw, weights[2], accum, count);
    let ghost accum3 = accum@;
    let ghost count3 = count@;
    add_rect(pre, stride, hh, hw, hh, hw, weights[3], accum, count);
    proof {
        let ws = seq![weights[0] as int, weights[1] as int, weights[2] as int, weights[3] as int];
        assert forall|k: int| 0 <= k < accum@.len() implies #[trigger] accum@[k] == if hit(
            k,
            stride as int,
            0,
            0,
            2 * hh,
            2 * hw,
        ) {
            (accum0[k] + ws[quarter_of(k / (stride as int), k % (stride as int), hh as int, hw as int)]
                * pre@[k].val()) % m32()
        } else {
            accum0[k] as int
        } by {
            vstd::arithmetic::div_mod::lemma_div_pos_is_pos(k, stride as int);
            assert(accum1[k] == accum1[k] && accum2[k] == accum2[k] && accum3[k] == accum3[k]);
        }
        assert forall|k: int| 0 <= k < count@.len() implies #[trigger] count@[k] == if hit(
            k,
            stride as int,
            0,
            0,
            2 * hh,
            2 * hw,
        ) {
            (count0[k] + ws[quarter_of(k / (stride as int), k % (stride as int), hh as int, hw as int)]) % 0x1_0000
        } else {
            count0[k] as int
        } by {
            vstd::arithmetic::div_mod::lemma_div_pos_is_pos(k, stride as int);
            assert(count1[k] == count1[k] && count2[k] == count2[k] && count3[k] == count3[k]);
        }
    }
}

/// Mean squared error of a quarter, with eight fraction bits; every shift
/// drops what does not fit 32 bits.
pub open spec fn mean_error(sum: int, hw: int, hh: int) -> int {
    (((((sum * 16) % m32()) / hw) * 16) % m32()) / hh
}

/// Start of quarter `q` of a block.
pub open spec fn quarter_start(q: int, stride: int, hw: int, hh: int) -> int {
    ((q / 2) * hh) * stride + (q % 2) * hw
}

/// Mean squared error of quarter `q` between the frame and a prediction.
pub open spec fn window_error<P: Pixel>(
    src: Seq<P>,
    src_stride: int,
    pre: Seq<P>,
    pre_stride: int,
    hw: int,
    hh: int,
    shift: nat,
    q: int,
) -> int {
    mean_error(
        crate::arith::shr_int(
            total(
                error_terms(
                    src,
                    quarter_start(q, src_stride, hw, hh),
                    src_stride,
                    pre,
                    quarter_start(q, pre_stride, hw, hh),
                    pre_stride,
                    hw,
                ),
                hw * hh,
            ) % m32(),
            shift,
        ),
        hw,
        hh,
    )
}

/// The error that counts for quarter `q`: chroma takes in a sixth of luma's.
pub open spec fn blended_error(own: int, luma: int, is_chroma: bool) -> int {
    if is_chroma {
        (5 * own + luma) / 6
    } else {
        own
    }
}

fn mean_error_of(sum: u32, hw: u32, hh: u32) -> (r: u32)
    requires
        0 < hw,
        0 < hh,
    ensures
        r == mean_error(sum as int, hw as int, hh as int),
{
    let a: u32 = low_u32(sum as u64 * 16) / hw;
    low_u32(a as u64 * 16) / hh
}

/// What one plane of a prediction is made of.
pub struct PlaneIn<P> {
    pub src: Seq<P>,
    pub src_stride: int,
    pub pre: Seq<P>,
    pub pre_stride: int,
    pub hw: int,
    pub hh: int,
    /// Scale of the squared errors.
    pub shift: nat,
    /// Samples are wide.
    pub wide: bool,
    pub is_chroma: bool,
    pub decay: int,
}

impl<P: Pixel> PlaneIn<P> {
    /// Error of quarter `q`.
    pub open spec fn error(self, luma: Seq<u32>, q: int) -> int {
        blended_error(
            window_error(self.src, self.src_stride, self.pre, self.pre_stride, self.hw, self.hh, self.shift, q),
            luma[q] as int,
            self.is_chroma,
        )
    }

    /// Weight of quarter `q`.
    pub open spec fn weight(self, ctx: TfKernelCtx, luma: Seq<u32>, q: int) -> int {
        let idx = block_index(ctx);
        prediction_weight(
            self.error(luma, q),
            quad_block_error(ctx, idx, q, self.wide),
            quad_motion(ctx, idx, q),
            decay_used(ctx, idx, self.decay),
        )
    }

    /// The four weights.
    pub open spec fn weights(self, ctx: TfKernelCtx, luma: Seq<u32>) -> Seq<int> {
        seq![
            self.weight(ctx, luma, 0),
            self.weight(ctx, luma, 1),
            self.weight(ctx, luma, 2),
            self.weight(ctx, luma, 3),
        ]
    }

    /// The errors fit 32 bits.
    pub open spec fn errors_fit(self, ctx: TfKernelCtx, luma: Seq<u32>, q: int) -> bool {
        &&& self.is_chroma ==> 5 * window_error(
            self.src,
            self.src_stride,
            self.pre,
            self.pre_stride,
            self.hw,
            self.hh,
            self.shift,
            q,
        ) + luma[q] <= u32::MAX
        &&& 5 * self.error(luma, q) + quad_block_error(ctx, block_index(ctx), q, self.wide) <= u32::MAX
    }

    /// The planes hold the block.
    pub open spec fn readable(self) -> bool {
        &&& 0 < self.hw
        &&& 0 < self.hh
        &&& self.hw <= 0xffff
        &&& self.hh <= 0xffff
        &&& 2 * self.hw <= self.pre_stride
        &&& (2 * self.hh - 1) * self.src_stride + 2 * self.hw <= self.src.len()
        &&& (2 * self.hh - 1) * self.pre_stride + 2 * self.hw <= self.pre.len()
        &&& self.shift < 32
    }

    /// The plane can be filtered.
    pub open spec fn ok(self, ctx: TfKernelCtx, luma: Seq<u32>, accum: Seq<u32>, count: Seq<u16>) -> bool {
        &&& self.readable()
        &&& 0 <= block_index(ctx) < 4
        &&& -0x1000_0000 <= ctx.tf_block_row <= 0x1000_0000
        &&& motion_ok(ctx, block_index(ctx))
        &&& (2 * self.hh - 1) * self.pre_stride + 2 * self.hw <= accum.len()
        &&& (2 * self.hh - 1) * self.pre_stride + 2 * self.hw <= count.len()
        &&& self.errors_fit(ctx, luma, 0)
        &&& self.errors_fit(ctx, luma, 1)
        &&& self.errors_fit(ctx, luma, 2)
        &&& self.errors_fit(ctx, luma, 3)
    }

    /// What filtering the plane does: the prediction is added with the four
    /// weights, and luma leaves its errors behind.
    pub open spec fn filtered(
        self,
        ctx: TfKernelCtx,
        luma0: Seq<u32>,
        luma: Seq<u32>,
        accum0: Seq<u32>,
        accum: Seq<u32>,
        count0: Seq<u16>,
        count: Seq<u16>,
    ) -> bool {
        &&& block_added(
            self.pre,
            self.pre_stride,
            self.hh,
            self.hw,
            self.weights(ctx, luma0),
            accum0,
            accum,
            count0,
            count,
        )
        &&& if self.is_chroma {
            luma == luma0
        } else {
            forall|q: int| 0 <= q < 4 ==> #[trigger] luma[q] == self.error(luma0, q)
        }
    }
}

proof fn lemma_quarter(len: int, stride: int, hw: int, hh: int, q: int)
    requires
        0 <= q < 4,
        0 < hw,
        0 < hh,
        0 <= stride,
        (2 * hh - 1) * stride + 2 * hw <= len,
    ensures
        0 <= quarter_start(q, stride, hw, hh) <= len,
        0 <= (q / 2) * hh * stride,
        inside(len, quarter_start(q, stride, hw, hh), stride, hw, hh),
{
    let a = q / 2;
    let b = q % 2;
    assert(a == 0 || a == 1);
    assert(b == 0 || b == 1);
    lemma_mul_inequality(a * hh + hh - 1, 2 * hh - 1, stride);
    vstd::arithmetic::mul::lemma_mul_is_distributive_add_other_way(stride, a * hh, hh - 1);
    lemma_mul_nonnegative(a * hh, stride);
    lemma_mul_nonnegative(hh - 1, stride);
}

fn plane_partial<P: Pixel>(
    ctx: &TfKernelCtx,
    src: &[P],
    src_stride: usize,
    pre: &[P],
    pre_stride: usize,
    hw: usize,
    hh: usize,
    accum: &mut [u32],
    count: &mut [u16],
    decay: u32,
    luma: &mut [u32; 4],
    is_chroma: bool,
    wide: bool,
    shift: u32,
)
    requires
        (PlaneIn {
            src: src@,
            src_stride: src_stride as int,
            pre: pre@,
            pre_stride: pre_stride as int,
            hw: hw as int,
            hh: hh as int,
            shift: shift as nat,
            wide,
            is_chroma,
            decay: decay as int,
        }).ok(*ctx, old(luma)@, old(accum)@, old(count)@),
    ensures
        (PlaneIn {
            src: src@,
            src_stride: src_stride as int,
            pre: pre@,
            pre_stride: pre_stride as int,
            hw: hw as int,
            hh: hh as int,
            shift: shift as nat,
            wide,
            is_chroma,
            decay: decay as int,
        }).filtered(
            *ctx,
            old(luma)@,
            final(luma)@,
            old(accum)@,
            final(accum)@,
            old(count)@,
            final(count)@,
        ),
{
    let ghost plane = PlaneIn {
        src: src@,
        src_stride: src_stride as int,
        pre: pre@,
        pre_stride: pre_stride as int,
        hw: hw as int,
        hh: hh as int,
        shift: shift as nat,
        wide,
        is_chroma,
        decay: decay as int,
    };
    let ghost luma0 = luma@;
    let idx: usize = (ctx.tf_block_col + ctx.tf_block_row * 2) as usize;
    let terms: QuadTerms = tf_quadrant_terms(ctx, idx, decay, wide);
    let s_len: usize = src.len();
    let p_len: usize = pre.len();
    let mut errors: [u32; 4] = [0; 4];
    let mut weights: [u32; 4] = [0; 4];
    let mut q: usize = 0;
    while q < 4
        invariant
            q <= 4,
            idx == block_index(*ctx),
            s_len == src@.len(),
            p_len == pre@.len(),
            luma@ == luma0,
            plane == (PlaneIn {
                src: src@,
                src_stride: src_stride as int,
                pre: pre@,
                pre_stride: pre_stride as int,
                hw: hw as int,
                hh: hh as int,
                shift: shift as nat,
                wide,
                is_chroma,
                decay: decay as int,
            }),
            plane.ok(*ctx, luma0, accum@, count@),
            forall|k: int| 0 <= k < 4 ==> #[trigger] terms.motion[k] == quad_motion(*ctx, idx as int, k),
            forall|k: int|
                0 <= k < 4 ==> #[trigger] terms.block_error[k] == quad_block_error(*ctx, idx as int, k, wide),
            terms.decay == decay_used(*ctx, idx as int, decay as int),
            forall|k: int| 0 <= k < q ==> #[trigger] errors[k] == plane.error(luma0, k),
            forall|k: int|
                0 <= k < q ==> (#[trigger] weights[k]) == plane.weight(*ctx, luma0, k) && weights[k] <= 1000,
        decreases 4 - q,
    {
        proof {
            assert(plane.errors_fit(*ctx, luma0, q as int));
            lemma_quarter(s_len as int, src_stride as int, hw as int, hh as int, q as int);
            lemma_quarter(p_len as int, pre_stride as int, hw as int, hh as int, q as int);
        }
        let down: usize = (q / 2) * hh;
        let right: usize = (q % 2) * hw;
        let s_off: usize = down * src_stride + right;
        let p_off: usize = down * pre_stride + right;
        let sum: u32 = squared_errors(src, s_off, src_stride, pre, p_off, pre_stride, hw, hh);
        let own: u32 = mean_error_of(shr_u32(sum, shift), hw as u32, hh as u32);
        let e: u32 = if is_chroma {
            (own * 5 + luma[q]) / 6
        } else {
            own
        };
        assert(e == plane.error(luma0, q as int));
        errors[q] = e;
        weights[q] = weight_of(e, terms.block_error[q], terms.motion[q], terms.decay);
        q = q + 1;
    }
    if !is_chroma {
        *luma = errors;
    }
    proof {
        assert(plane.weights(*ctx, luma0) =~= seq![
            weights[0] as int,
            weights[1] as int,
            weights[2] as int,
            weights[3] as int,
        ]);
    }
    tf_accumulate(&weights, pre, pre_stride, hh, hw, accum, count);
}

/// One plane of a block as the kernels see it.
pub open spec fn plane_in<P: Pixel>(
    src: Seq<P>,
    src_stride: usize,
    pre: Seq<P>,
    pre_stride: usize,
    block_width: int,
    block_height: int,
    decay: u32,
    is_chroma: bool,
    bit_depth: int,
    wide: bool,
) -> PlaneIn<P> {
    PlaneIn {
        src,
        src_stride: src_stride as int,
        pre,
        pre_stride: pre_stride as int,
        hw: block_width / 2,
        hh: block_height / 2,
        shift: (2 * (bit_depth - 8)) as nat,
        wide,
        is_chroma,
        decay: decay as int,
    }
}

/// Adds one plane of a prediction to the sums of its block. The luma plane
/// leaves its errors for the chroma planes to take in.
pub fn apply_temporal_filter_planewise_medium_partial(
    ctx: &TfKernelCtx,
    src: &[u8],
    src_stride: usize,
    pre: &[u8],
    pre_stride: usize,
    block_width: usize,
    block_height: usize,
    accum: &mut [u32],
    count: &mut [u16],
    tf_decay_factor_fp16: u32,
    luma_window_error_quad_fp8: &mut [u32; 4],
    is_chroma: bool,
)
    requires
        plane_in(
            src@,
            src_stride,
            pre@,
            pre_stride,
            block_width as int,
            block_height as int,
            tf_decay_factor_fp16,
            is_chroma,
            8,
            false,
        ).ok(*ctx, old(luma_window_error_quad_fp8)@, old(accum)@, old(count)@),
    ensures
        plane_in(
            src@,
            src_stride,
            pre@,
            pre_stride,
            block_width as int,
            block_height as int,
            tf_decay_factor_fp16,
            is_chroma,
            8,
            false,
        ).filtered(
            *ctx,
            old(luma_window_error_quad_fp8)@,
            final(luma_window_error_quad_fp8)@,
            old(accum)@,
            final(accum)@,
            old(count)@,
            final(count)@,
        ),
{
    plane_partial(
        ctx,
        src,
        src_stride,
        pre,
        pre_stride,
        block_width / 2,
        block_height / 2,
        accum,
        count,
        tf_decay_factor_fp16,
        luma_window_error_quad_fp8,
        is_chroma,
        false,
        0,
    );
}

/// Adds one plane of wide samples of a prediction to the sums of its block.
pub fn apply_temporal_filter_planewise_medium_hbd_partial(
    ctx: &TfKernelCtx,
    src: &[u16],
    src_stride: usize,
    pre: &[u16],
    pre_stride: usize,
    block_width: usize,
    block_height: usize,
    accum: &mut [u32],
    count: &mut [u16],
    tf_decay_factor_fp16: u32,
    luma_window_error_quad_fp8: &mut [u32; 4],
    is_chroma: bool,
    encoder_bit_depth: u32,
)
    requires
        8 <= encoder_bit_depth <= 23,
        plane_in(
            src@,
            src_stride,
            pre@,
            pre_stride,
            block_width as int,
            block_height as int,
            tf_decay_factor_fp16,
            is_chroma,
            encoder_bit_depth as int,
            true,
        ).ok(*ctx, old(luma_window_error_quad_fp8)@, old(accum)@, old(count)@),
    ensures
        plane_in(
            src@,
            src_stride,
            pre@,
            pre_stride,
            block_width as int,
            block_height as int,
            tf_decay_factor_fp16,
            is_chroma,
            encoder_bit_depth as int,
            true,
        ).filtered(
            *ctx,
            old(luma_window_error_quad_fp8)@,
            final(luma_window_error_quad_fp8)@,
            old(accum)@,
            final(accum)@,
            old(count)@,
            final(count)@,
        ),
{
    plane_partial(
        ctx,
        src,
        src_stride,
        pre,
        pre_stride,
        block_width / 2,
        block_height / 2,
        accum,
        count,
        tf_decay_factor_fp16,
        luma_window_error_quad_fp8,
        is_chroma,
        true,
        2 * (encoder_bit_depth - 8),
    );
}

/// No errors yet.
pub open spec fn zero_errors() -> Seq<u32> {
    seq![0u32, 0u32, 0u32, 0u32]
}

/// The errors a luma plane leaves.
pub open spec fn luma_errors<P: Pixel>(y: PlaneIn<P>) -> Seq<u32> {
    seq![
        y.error(zero_errors(), 0) as u32,
        y.error(zero_errors(), 1) as u32,
        y.error(zero_errors(), 2) as u32,
        y.error(zero_errors(), 3) as u32,
    ]
}

/// Adds a prediction to the sums of its block: luma, and chroma where it is
/// filtered, which takes in the errors of luma.
pub fn apply_temporal_filter_planewise_medium(
    ctx: &TfKernelCtx,
    y_src: &[u8],
    y_src_stride: usize,
    y_pre: &[u8],
    y_pre_stride: usize,
    u_src: &[u8],
    v_src: &[u8],
    uv_src_stride: usize,
    u_pre: &[u8],
    v_pre: &[u8],
    uv_pre_stride: usize,
    block_width: usize,
    block_height: usize,
    ss_x: u32,
    ss_y: u32,
    y_accum: &mut [u32],
    y_count: &mut [u16],
    u_accum: &mut [u32],
    u_count: &mut [u16],
    v_accum: &mut [u32],
    v_count: &mut [u16],
)
    requires
        ss_x < 32,
        ss_y < 32,
        plane_in(y_src@, y_src_stride, y_pre@, y_pre_stride, block_width as int, block_height as int, ctx.tf_decay_factor_fp16[0], false, 8, false).ok(*ctx, zero_errors(), old(y_accum)@, old(y_count)@),
        ctx.tf_chroma ==> {
            let luma = luma_errors(plane_in(y_src@, y_src_stride, y_pre@, y_pre_stride, block_width as int, block_height as int, ctx.tf_decay_factor_fp16[0], false, 8, false));
            &&& plane_in(u_src@, uv_src_stride, u_pre@, uv_pre_stride, chroma(block_width as int, ss_x as int), chroma(block_height as int, ss_y as int), ctx.tf_decay_factor_fp16[1], true, 8, false).ok(*ctx, luma, old(u_accum)@, old(u_count)@)
            &&& plane_in(v_src@, uv_src_stride, v_pre@, uv_pre_stride, chroma(block_width as int, ss_x as int), chroma(block_height as int, ss_y as int), ctx.tf_decay_factor_fp16[2], true, 8, false).ok(*ctx, luma, old(v_accum)@, old(v_count)@)
        },
    ensures
        ({
            let luma = luma_errors(plane_in(y_src@, y_src_stride, y_pre@, y_pre_stride, block_width as int, block_height as int, ctx.tf_decay_factor_fp16[0], false, 8, false));
            &&& plane_in(y_src@, y_src_stride, y_pre@, y_pre_stride, block_width as int, block_height as int, ctx.tf_decay_factor_fp16[0], false, 8, false).filtered(
                *ctx,
                zero_errors(),
                luma,
                old(y_accum)@,
                final(y_accum)@,
                old(y_count)@,
                final(y_count)@,
            )
            &&& if ctx.tf_chroma {
                &&& plane_in(u_src@, uv_src_stride, u_pre@, uv_pre_stride, chroma(block_width as int, ss_x as int), chroma(block_height as int, ss_y as int), ctx.tf_decay_factor_fp16[1], true, 8, false).filtered(
                    *ctx,
                    luma,
                    luma,
                    old(u_accum)@,
                    final(u_accum)@,
                    old(u_count)@,
                    final(u_count)@,
                )
                &&& plane_in(v_src@, uv_src_stride, v_pre@, uv_pre_stride, chroma(block_width as int, ss_x as int), chroma(block_height as int, ss_y as int), ctx.tf_decay_factor_fp16[2], true, 8, false).filtered(
                    *ctx,
                    luma,
                    luma,
                    old(v_accum)@,
                    final(v_accum)@,
                    old(v_count)@,
                    final(v_count)@,
                )
            } else {
                &&& final(u_accum)@ == old(u_accum)@ && final(u_count)@ == old(u_count)@
                &&& final(v_accum)@ == old(v_accum)@ && final(v_count)@ == old(v_count)@
            }
        }),
{
    let mut luma: [u32; 4] = [0; 4];
    assert(luma@ =~= zero_errors());
    apply_temporal_filter_planewise_medium_partial(
        ctx,
        y_src,
        y_src_stride,
        y_pre,
        y_pre_stride,
        block_width,
        block_height,
        y_accum,
        y_count,
        ctx.tf_decay_factor_fp16[0],
        &mut luma,
        false,
    );
    assert(luma@ =~= luma_errors(plane_in(y_src@, y_src_stride, y_pre@, y_pre_stride, block_width as int, block_height as int, ctx.tf_decay_factor_fp16[0], false, 8, false)));
    if ctx.tf_chroma {
        let w: usize = shr_usize(block_width, ss_x);
        let h: usize = shr_usize(block_height, ss_y);
        apply_temporal_filter_planewise_medium_partial(
            ctx,
            u_src,
            uv_src_stride,
            u_pre,
            uv_pre_stride,
            w,
            h,
            u_accum,
            u_count,
            ctx.tf_decay_factor_fp16[1],
            &mut luma,
            true,
        );
        apply_temporal_filter_planewise_medium_partial(
            ctx,
            v_src,
            uv_src_stride,
            v_pre,
            uv_pre_stride,
            w,
            h,
            v_accum,
            v_count,
            ctx.tf_decay_factor_fp16[2],
            &mut luma,
            true,
        );
    }
}

/// Adds a prediction of wide samples to the sums of its block.
pub fn apply_temporal_filter_planewise_medium_hbd(
    ctx: &TfKernelCtx,
    y_src: &[u16],
    y_src_stride: usize,
    y_pre: &[u16],
    y_pre_stride: usize,
    u_src: &[u16],
    v_src: &[u16],
    uv_src_stride: usize,
    u_pre: &[u16],
    v_pre: &[u16],
    uv_pre_stride: usize,
    block_width: usize,
    block_height: usize,
    ss_x: u32,
    ss_y: u32,
    y_accum: &mut [u32],
    y_count: &mut [u16],
    u_accum: &mut [u32],
    u_count: &mut [u16],
    v_accum: &mut [u32],
    v_count: &mut [u16],
    encoder_bit_depth: u32,
)
    requires
        8 <= encoder_bit_depth <= 23,
        ss_x < 32,
        ss_y < 32,
        plane_in(y_src@, y_src_stride, y_pre@, y_pre_stride, block_width as int, block_height as int, ctx.tf_decay_factor_fp16[0], false, encoder_bit_depth as int, true).ok(*ctx, zero_errors(), old(y_accum)@, old(y_count)@),
        ctx.tf_chroma ==> {
            let luma = luma_errors(plane_in(y_src@, y_src_stride, y_pre@, y_pre_stride, block_width as int, block_height as int, ctx.tf_decay_factor_fp16[0], false, encoder_bit_depth as int, true));
            &&& plane_in(u_src@, uv_src_stride, u_pre@, uv_pre_stride, chroma(block_width as int, ss_x as int), chroma(block_height as int, ss_y as int), ctx.tf_decay_factor_fp16[1], true, encoder_bit_depth as int, true).ok(*ctx, luma, old(u_accum)@, old(u_count)@)
            &&& plane_in(v_src@, uv_src_stride, v_pre@, uv_pre_stride, chroma(block_width as int, ss_x as int), chroma(block_height as int, ss_y as int), ctx.tf_decay_factor_fp16[2], true, encoder_bit_depth as int, true).ok(*ctx, luma, old(v_accum)@, old(v_count)@)
        },
    ensures
        ({
            let luma = luma_errors(plane_in(y_src@, y_src_stride, y_pre@, y_pre_stride, block_width as int, block_height as int, ctx.tf_decay_factor_fp16[0], false, encoder_bit_depth as int, true));
            &&& plane_in(y_src@, y_src_stride, y_pre@, y_pre_stride, block_width as int, block_height as int, ctx.tf_decay_factor_fp16[0], false, encoder_bit_depth as int, true).filtered(
                *ctx,
                zero_errors(),
                luma,
                old(y_accum)@,
                final(y_accum)@,
                old(y_count)@,
                final(y_count)@,
            )
            &&& if ctx.tf_chroma {
                &&& plane_in(u_src@, uv_src_stride, u_pre@, uv_pre_stride, chroma(block_width as int, ss_x as int), chroma(block_height as int, ss_y as int), ctx.tf_decay_factor_fp16[1], true, encoder_bit_depth as int, true).filtered(
                    *ctx,
                    luma,
                    luma,
                    old(u_accum)@,
                    final(u_accum)@,
                    old(u_count)@,
                    final(u_count)@,
                )
                &&& plane_in(v_src@, uv_src_stride, v_pre@, uv_pre_stride, chroma(block_width as int, ss_x as int), chroma(block_height as int, ss_y as int), ctx.tf_decay_factor_fp16[2], true, encoder_bit_depth as int, true).filtered(
                    *ctx,
                    luma,
                    luma,
                    old(v_accum)@,
                    final(v_accum)@,
                    old(v_count)@,
                    final(v_count)@,
                )
            } else {
                &&& final(u_accum)@ == old(u_accum)@ && final(u_count)@ == old(u_count)@
                &&& final(v_accum)@ == old(v_accum)@ && final(v_count)@ == old(v_count)@
            }
        }),
{
    let mut luma: [u32; 4] = [0; 4];
    assert(luma@ =~= zero_errors());
    apply_temporal_filter_planewise_medium_hbd_partial(
        ctx,
        y_src,
        y_src_stride,
        y_pre,
        y_pre_stride,
        block_width,
        block_height,
        y_accum,
        y_count,
        ctx.tf_decay_factor_fp16[0],
        &mut luma,
        false,
        encoder_bit_depth,
    );
    assert(luma@ =~= luma_errors(plane_in(y_src@, y_src_stride, y_pre@, y_pre_stride, block_width as int, block_height as int, ctx.tf_decay_factor_fp16[0], false, encoder_bit_depth as int, true)));
    if ctx.tf_chroma {
        let w: usize = shr_usize(block_width, ss_x);
        let h: usize = shr_usize(block_height, ss_y);
        apply_temporal_filter_planewise_medium_hbd_partial(
            ctx,
            u_src,
            uv_src_stride,
            u_pre,
            uv_pre_stride,
            w,
            h,
            u_accum,
            u_count,
            ctx.tf_decay_factor_fp16[1],
            &mut luma,
            true,
            encoder_bit_depth,
        );
        apply_temporal_filter_planewise_medium_hbd_partial(
            ctx,
            v_src,
            uv_src_stride,
            v_pre,
            uv_pre_stride,
            w,
            h,
            v_accum,
            v_count,
            ctx.tf_decay_factor_fp16[2],
            &mut luma,
            true,
            encoder_bit_depth,
        );
    }
}

} // verus!
