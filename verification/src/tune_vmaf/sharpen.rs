//! The unsharp mask itself, and how much of a picture is flat.

use vstd::arithmetic::div_mod::{
    lemma_div_pos_is_pos, lemma_fundamental_div_mod, lemma_fundamental_div_mod_converse, lemma_mod_bound,
};
use vstd::arithmetic::mul::{lemma_mul_is_commutative, lemma_mul_nonnegative};
use vstd::arithmetic::power2::lemma2_to64;
use vstd::prelude::*;

use crate::arith::{abs_int, clamp_i32, clamp_int, shr_i32, total};
use crate::raster::{inside, lemma_next_row, lemma_pos, pos};

verus! {

/// The detail of a sample, cut off.
pub open spec fn detail(s: int, b: int, max_delta: int) -> int {
    clamp_int(s - b, -max_delta, max_delta)
}

/// A sample moved away from its low-pass version `b`.
pub open spec fn sharpened(s: int, b: int, amount: int, max_delta: int) -> int {
    clamp_int(s + detail(s, b, max_delta) * amount / 32768, 0, 255)
}

/// The sharpened sample is computed without overflow.
pub open spec fn sharpens(s: int, b: int, amount: int, max_delta: int) -> bool {
    i32::MIN <= detail(s, b, max_delta) * amount <= i32::MAX
}

fn sharpen(s: u8, b: u8, amount: i32, max_delta: i32) -> (r: u8)
    requires
        0 <= max_delta,
        sharpens(s as int, b as int, amount as int, max_delta as int),
    ensures
        r == sharpened(s as int, b as int, amount as int, max_delta as int),
{
    let d: i32 = clamp_i32(s as i32 - b as i32, -max_delta, max_delta);
    proof {
        lemma2_to64();
    }
    clamp_i32(s as i32 + shr_i32(d * amount, 15), 0, 255) as u8
}

/// Sharpens a row.
pub fn apply_unsharp_row(src: &[u8], blur: &[u8], dst: &mut [u8], width: usize, amount: i32, max_delta: i32)
    requires
        0 <= max_delta,
        width <= src@.len(),
        width <= blur@.len(),
        width <= old(dst)@.len(),
        forall|j: int|
            0 <= j < width ==> sharpens(#[trigger] src@[j] as int, blur@[j] as int, amount as int, max_delta as int),
    ensures
        final(dst)@.len() == old(dst)@.len(),
        forall|j: int|
            0 <= j < old(dst)@.len() ==> #[trigger] final(dst)@[j] == if j < width {
                sharpened(src@[j] as int, blur@[j] as int, amount as int, max_delta as int)
            } else {
                old(dst)@[j] as int
            },
{
    let ghost a = dst@;
    let mut j: usize = 0;
    while j < width
        invariant
            0 <= max_delta,
            j <= width,
            width <= src@.len(),
            width <= blur@.len(),
            width <= a.len(),
            dst@.len() == a.len(),
            forall|k: int|
                0 <= k < width ==> sharpens(
                    #[trigger] src@[k] as int,
                    blur@[k] as int,
                    amount as int,
                    max_delta as int,
                ),
            forall|k: int|
                0 <= k < a.len() ==> #[trigger] dst@[k] == if k < j {
                    sharpened(src@[k] as int, blur@[k] as int, amount as int, max_delta as int)
                } else {
                    a[k] as int
                },
        decreases width - j,
    {
        dst[j] = sharpen(src[j], blur[j], amount, max_delta);
        j = j + 1;
    }
}

/// Whether sample `i` of the picture, row by row, is within `thresh` of its
/// low-pass version: one where it is, and zero where not.
pub open spec fn near_terms(src: Seq<u8>, blur: Seq<u8>, width: int, stride: int, thresh: int) -> spec_fn(int) -> int {
    |i: int|
        if abs_int(src[pos(0, stride, width, i)] - blur[i]) <= thresh {
            1
        } else {
            0
        }
}

/// Number of samples within `thresh` of their low-pass version.
pub open spec fn near_count(src: Seq<u8>, blur: Seq<u8>, width: int, height: int, stride: int, thresh: int) -> int {
    total(near_terms(src, blur, width, stride, thresh), width * height)
}

/// Number of samples within `thresh` of their low-pass version, which has no
/// gaps between its rows.
pub fn count_detail_le(src: &[u8], blur: &[u8], width: usize, height: usize, src_stride: usize, thresh: i32) -> (r: u32)
    requires
        inside(src@.len() as int, 0, src_stride as int, width as int, height as int),
        width * height <= blur@.len(),
        width * height <= u32::MAX,
    ensures
        r == near_count(src@, blur@, width as int, height as int, src_stride as int, thresh as int),
        r <= width * height,
{
    let ghost f = near_terms(src@, blur@, width as int, src_stride as int, thresh as int);
    let src_len: usize = src.len();
    let blur_len: usize = blur.len();
    let mut count: u32 = 0;
    let mut y: usize = 0;
    proof {
        assert(0 * (width as int) == 0) by (nonlinear_arith);
        lemma_mul_nonnegative(width as int, height as int);
    }
    while y < height
        invariant
            y <= height,
            src_len == src@.len(),
            blur_len == blur@.len(),
            inside(src_len as int, 0, src_stride as int, width as int, height as int),
            width * height <= blur_len,
            width * height <= u32::MAX,
            f == near_terms(src@, blur@, width as int, src_stride as int, thresh as int),
            count == total(f, y * width),
            count <= y * width,
        decreases height - y,
    {
        let mut x: usize = 0;
        while x < width
            invariant
                y < height,
                x <= width,
                src_len == src@.len(),
                blur_len == blur@.len(),
                inside(src_len as int, 0, src_stride as int, width as int, height as int),
                width * height <= blur_len,
                width * height <= u32::MAX,
                f == near_terms(src@, blur@, width as int, src_stride as int, thresh as int),
                count == total(f, y * width + x),
                count <= y * width + x,
            decreases width - x,
        {
            proof {
                lemma_pos(src_len as int, 0, src_stride as int, width as int, height as int, y as int, x as int);
                lemma_mul_nonnegative(y as int, width as int);
            }
            let s: u8 = src[y * src_stride + x];
            let b: u8 = blur[y * width + x];
            let d: i32 = if s >= b {
                s as i32 - b as i32
            } else {
                b as i32 - s as i32
            };
            if d <= thresh {
                count = count + 1;
            }
            x = x + 1;
        }
        proof {
            lemma_next_row(y as int, width as int);
        }
        y = y + 1;
    }
    proof {
        lemma_mul_is_commutative(width as int, height as int);
    }
    count
}

/// A sample of a plane at position `k` belongs to the picture.
pub open spec fn in_picture(k: int, stride: int, width: int, height: int) -> bool {
    k % stride < width && k / stride < height
}

/// `b` is the plane `a` with its picture sharpened.
pub open spec fn frame_sharpened(
    a: Seq<u8>,
    b: Seq<u8>,
    blur: Seq<u8>,
    width: int,
    height: int,
    stride: int,
    amount: int,
    max_delta: int,
) -> bool {
    &&& b.len() == a.len()
    &&& forall|k: int|
        0 <= k < a.len() ==> #[trigger] b[k] == if in_picture(k, stride, width, height) {
            sharpened(a[k] as int, blur[k / stride * width + k % stride] as int, amount, max_delta)
        } else {
            a[k] as int
        }
}

/// The sharpened picture is computed without overflow.
pub open spec fn frame_fits(
    a: Seq<u8>,
    blur: Seq<u8>,
    width: int,
    height: int,
    stride: int,
    amount: int,
    max_delta: int,
) -> bool {
    forall|k: int|
        0 <= k < a.len() && in_picture(k, stride, width, height) ==> sharpens(
            #[trigger] a[k] as int,
            blur[k / stride * width + k % stride] as int,
            amount,
            max_delta,
        )
}

/// Sharpens a picture in place.
pub fn unsharp_apply_frame(
    plane: &mut [u8],
    blur: &[u8],
    width: usize,
    height: usize,
    stride: usize,
    sharp_amount: i32,
    delta_clip: i32,
)
    requires
        0 <= delta_clip,
        0 < stride,
        width <= stride,
        inside(old(plane)@.len() as int, 0, stride as int, width as int, height as int),
        width * height <= blur@.len(),
        frame_fits(
            old(plane)@,
            blur@,
            width as int,
            height as int,
            stride as int,
            sharp_amount as int,
            delta_clip as int,
        ),
    ensures
        frame_sharpened(
            old(plane)@,
            final(plane)@,
            blur@,
            width as int,
            height as int,
            stride as int,
            sharp_amount as int,
            delta_clip as int,
        ),
{
    let ghost a = plane@;
    let len: usize = plane.len();
    let blur_len: usize = blur.len();
    let mut y: usize = 0;
    proof {
        lemma_untouched(a, blur@, width as int, stride as int, sharp_amount as int, delta_clip as int);
    }
    while y < height
        invariant
            y <= height,
            0 <= delta_clip,
            0 < stride,
            width <= stride,
            len == a.len(),
            len == plane@.len(),
            blur_len == blur@.len(),
            inside(len as int, 0, stride as int, width as int, height as int),
            width * height <= blur_len,
            frame_fits(
                a,
                blur@,
                width as int,
                height as int,
                stride as int,
                sharp_amount as int,
                delta_clip as int,
            ),
            frame_sharpened(
                a,
                plane@,
                blur@,
                width as int,
                y as int,
                stride as int,
                sharp_amount as int,
                delta_clip as int,
            ),
        decreases height - y,
    {
        let ghost prior = plane@;
        let mut j: usize = 0;
        proof {
            lemma_mul_nonnegative(y as int, stride as int);
        }
        while j < width
            invariant
                y < height,
                j <= width,
                0 <= delta_clip,
                0 < stride,
                width <= stride,
                len == a.len(),
                len == plane@.len(),
                prior.len() == len,
                blur_len == blur@.len(),
                inside(len as int, 0, stride as int, width as int, height as int),
                width * height <= blur_len,
                frame_fits(
                    a,
                    blur@,
                    width as int,
                    height as int,
                    stride as int,
                    sharp_amount as int,
                    delta_clip as int,
                ),
                frame_sharpened(
                    a,
                    prior,
                    blur@,
                    width as int,
                    y as int,
                    stride as int,
                    sharp_amount as int,
                    delta_clip as int,
                ),
                forall|k: int|
                    0 <= k < len ==> #[trigger] plane@[k] == if y * stride <= k < y * stride + j {
                        sharpened(
                            a[k] as int,
                            blur@[y * width + (k - y * stride)] as int,
                            sharp_amount as int,
                            delta_clip as int,
                        )
                    } else {
                        prior[k] as int
                    },
            decreases width - j,
        {
            proof {
                lemma_pos(len as int, 0, stride as int, width as int, height as int, y as int, j as int);
                lemma_mul_nonnegative(y as int, width as int);
                let k = y * stride + j;
                lemma_fundamental_div_mod_converse(k, stride as int, y as int, j as int);
                assert(in_picture(k, stride as int, width as int, height as int));
                assert(prior[k] == a[k]);
                assert(sharpens(
                    a[k] as int,
                    blur@[k / (stride as int) * width + k % (stride as int)] as int,
                    sharp_amount as int,
                    delta_clip as int,
                ));
            }
            plane[y * stride + j] = sharpen(
                plane[y * stride + j],
                blur[y * width + j],
                sharp_amount,
                delta_clip,
            );
            j = j + 1;
        }
        proof {
            assert forall|k: int| 0 <= k < a.len() implies #[trigger] plane@[k] == if in_picture(
                k,
                stride as int,
                width as int,
                y + 1,
            ) {
                sharpened(
                    a[k] as int,
                    blur@[k / (stride as int) * width + k % (stride as int)] as int,
                    sharp_amount as int,
                    delta_clip as int,
                )
            } else {
                a[k] as int
            } by {
                let s = stride as int;
                lemma_fundamental_div_mod(k, s);
                lemma_mul_is_commutative(k / s, s);
                lemma_mod_bound(k, s);
                let _ = prior[k];
                if y * stride <= k < y * stride + width {
                    lemma_fundamental_div_mod_converse(k, s, y as int, k - y * stride);
                } else if k / s == y {
                    assert(k == y * stride + k % s);
                    assert(!(k % s < width));
                }
            }
        }
        y = y + 1;
    }
}

proof fn lemma_untouched(a: Seq<u8>, blur: Seq<u8>, width: int, stride: int, amount: int, max_delta: int)
    requires
        0 < stride,
    ensures
        frame_sharpened(a, a, blur, width, 0, stride, amount, max_delta),
{
    assert forall|k: int| 0 <= k < a.len() implies !#[trigger] in_picture(k, stride, width, 0) by {
        lemma_div_pos_is_pos(k, stride);
    }
}

/// A sample that equals its low-pass version is not changed, and no sample is
/// where the strength is zero.
pub proof fn flat_samples_are_kept(s: u8, b: u8, amount: int, max_delta: int)
    requires
        0 <= max_delta,
        s == b || amount == 0,
    ensures
        sharpened(s as int, b as int, amount, max_delta) == s,
{
    let d = detail(s as int, b as int, max_delta);
    assert(d * amount == 0) by (nonlinear_arith)
        requires
            d == 0 || amount == 0,
    ;
}

/// Sharpening moves a sample away from its low-pass version, never toward
/// it, and by no more than `max_delta` where the strength is at most one.
pub proof fn sharpening_widens_detail(s: u8, b: u8, amount: int, max_delta: int)
    requires
        0 <= amount <= 32768,
        0 <= max_delta,
    ensures
        s >= b ==> s <= sharpened(s as int, b as int, amount, max_delta) <= s + max_delta,
        s <= b ==> s - max_delta <= sharpened(s as int, b as int, amount, max_delta) <= s,
{
    let d = detail(s as int, b as int, max_delta);
    assert(0 <= d ==> 0 <= d * amount <= d * 32768) by (nonlinear_arith)
        requires
            0 <= amount <= 32768,
    ;
    assert(d <= 0 ==> d * 32768 <= d * amount <= 0) by (nonlinear_arith)
        requires
            0 <= amount <= 32768,
    ;
}

} // verus!
