//! An unsharp mask over the luma of a source picture: how much detail a
//! picture has, a low-pass version of it, and the sharpened picture.

use vstd::arithmetic::mul::lemma_mul_nonnegative;
use vstd::prelude::*;

pub mod blur;
pub mod gradient;
pub mod laws;
pub mod mad;
pub mod sharpen;

use crate::arith::{signed_u32, wrap_i32};
use crate::raster::inside;
use crate::tune_vmaf::blur::{blurred, box_blur_frame, VmafRing};
use crate::tune_vmaf::sharpen::{
    count_detail_le, detail, frame_fits, frame_sharpened, near_count, sharpens, unsharp_apply_frame,
};

verus! {

/// Taps on either side of the centre.
pub const VMAF_STEPS: usize = 2;

/// Rows that a vertical pass reads.
pub const VMAF_RING_ROWS: usize = 5;

/// Largest difference from the low-pass version of a flat sample.
pub const FLAT_DETAIL_THR: i32 = 12;

/// Largest change of a sample: it grows with the quantizer, and is less by
/// four in a busy frame.
pub open spec fn clip_for(base_qp: int, busy_frame: bool) -> int {
    (if base_qp <= 42 {
        8int
    } else if base_qp <= 51 {
        9
    } else if base_qp <= 57 {
        10
    } else {
        12
    }) - (if busy_frame {
        4int
    } else {
        0
    })
}

/// Largest change of a sample.
pub fn delta_clip(base_qp: i32, busy_frame: bool) -> (r: i32)
    ensures
        r == clip_for(base_qp as int, busy_frame),
        4 <= r <= 12,
{
    let qp_delta: i32 = if base_qp <= 42 {
        8
    } else if base_qp <= 51 {
        9
    } else if base_qp <= 57 {
        10
    } else {
        12
    };
    if busy_frame {
        qp_delta - 4
    } else {
        qp_delta
    }
}

/// What sharpening a picture reports.
#[derive(Debug, Clone, Copy, PartialEq, Eq, Structural)]
pub struct VmafPreprocess {
    /// Strength, in units of `1/32768`.
    pub sharpening_amount: i32,
    /// Largest change of a sample.
    pub max_delta: i32,
}

/// The low-pass version of a picture, row by row without gaps.
pub open spec fn low_pass(luma: Seq<u8>, stride: int, width: int, height: int) -> Seq<u8> {
    Seq::new((width * height) as nat, |k: int| blurred(luma, stride, width, height, k / width, k % width) as u8)
}

/// Fewer than 85 in 100 samples are flat. The threshold counts in 32 bits.
pub open spec fn is_busy(luma: Seq<u8>, stride: int, width: int, height: int) -> bool {
    near_count(luma, low_pass(luma, stride, width, height), width, height, stride, FLAT_DETAIL_THR as int) < (width
        * height) * 85 % 0x1_0000_0000 / 100
}

/// The sharpening strength is one that cannot overflow.
pub open spec fn strength_ok(amount: int) -> bool {
    -0x800_0000 <= amount <= 0x800_0000
}

/// Sharpens the luma of a picture in place with a strength, given in units of
/// `1/32768`, and reports it with the largest change of a sample.
pub fn preprocess_frame(
    luma: &mut [u8],
    stride: usize,
    width: usize,
    height: usize,
    base_qp: u32,
    sharpening_amount: i32,
) -> (r: VmafPreprocess)
    requires
        strength_ok(sharpening_amount as int),
        0 < stride,
        width <= stride,
        width <= i32::MAX - 2,
        height <= i32::MAX - 2,
        width * height <= u32::MAX,
        inside(old(luma)@.len() as int, 0, stride as int, width as int, height as int),
    ensures
        r.sharpening_amount == sharpening_amount,
        r.max_delta == clip_for(
            wrap_i32(base_qp as int),
            is_busy(old(luma)@, stride as int, width as int, height as int),
        ),
        frame_sharpened(
            old(luma)@,
            final(luma)@,
            low_pass(old(luma)@, stride as int, width as int, height as int),
            width as int,
            height as int,
            stride as int,
            sharpening_amount as int,
            r.max_delta as int,
        ),
{
    proof {
        lemma_mul_nonnegative(width as int, height as int);
    }
    let mut ring: VmafRing = VmafRing::new(width);
    let n: usize = width * height;
    let mut blur: Vec<u8> = vec![0u8; n];
    box_blur_frame(luma, stride, blur.as_mut_slice(), width, height, &mut ring);
    proof {
        assert(blur@ =~= low_pass(luma@, stride as int, width as int, height as int)) by {
            assert forall|k: int| 0 <= k < blur@.len() implies blur@[k] == low_pass(
                luma@,
                stride as int,
                width as int,
                height as int,
            )[k] by {}
        }
    }
    let flat_pixel_target: u64 = (n as u64 * 85) % 0x1_0000_0000 / 100;
    let flat_pixel_count: u32 = count_detail_le(luma, blur.as_slice(), width, height, stride, FLAT_DETAIL_THR);
    let busy: bool = (flat_pixel_count as u64) < flat_pixel_target;
    let max_delta: i32 = delta_clip(signed_u32(base_qp), busy);
    proof {
        lemma_strength_fits(
            luma@,
            blur@,
            width as int,
            height as int,
            stride as int,
            sharpening_amount as int,
            max_delta as int,
        );
    }
    unsharp_apply_frame(luma, blur.as_slice(), width, height, stride, sharpening_amount, max_delta);
    VmafPreprocess { sharpening_amount, max_delta }
}

proof fn lemma_strength_fits(
    a: Seq<u8>,
    blur: Seq<u8>,
    width: int,
    height: int,
    stride: int,
    amount: int,
    max_delta: int,
)
    requires
        strength_ok(amount),
        0 <= max_delta <= 12,
    ensures
        frame_fits(a, blur, width, height, stride, amount, max_delta),
{
    assert forall|k: int| 0 <= k < a.len() implies sharpens(
        #[trigger] a[k] as int,
        blur[k / stride * width + k % stride] as int,
        amount,
        max_delta,
    ) by {
        let d = detail(
            a[k] as int,
            blur[k / stride * width + k % stride] as int,
            max_delta,
        );
        assert(i32::MIN <= d * amount <= i32::MAX) by (nonlinear_arith)
            requires
                -12 <= d <= 12,
                -0x800_0000 <= amount <= 0x800_0000,
        ;
    }
}

} // verus!
