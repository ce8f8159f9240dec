//! What the filter kernels keep: weights stay on their scale, agreement weighs
//! as much as the frame itself, and a block that nothing is added to comes out
//! as it went in.

use vstd::arithmetic::div_mod::lemma_div_pos_is_pos;
use vstd::arithmetic::mul::{lemma_mul_inequality, lemma_mul_nonnegative};
use vstd::prelude::*;

use crate::arith::{lemma_total_bounds, max_int, shr_int, total};
use crate::pixel::Pixel;
use crate::raster::pos;
use crate::temporal_filtering::kernels::{
    average_inputs, averaged, block_averaged, block_index, block_seeded, chroma, decay_used, error_terms, hit,
    in_rect, mean_error, quad_block_error, quad_motion, quarter_of, quarter_start, seeded, unfiltered_blocks_are_kept,
    weights_stay_in_range, PlaneIn, TfKernelCtx,
};
use crate::temporal_filtering::weights::EXPF_TAB_FP16;

verus! {

proof fn lemma_shr_nonnegative(x: int, s: nat)
    requires
        0 <= x,
    ensures
        0 <= shr_int(x, s),
        x == 0 ==> shr_int(x, s) == 0,
{
    vstd::arithmetic::power2::lemma_pow2_pos(s);
    lemma_div_pos_is_pos(x, vstd::arithmetic::power2::pow2(s) as int);
    if x == 0 {
        vstd::arithmetic::div_mod::lemma_div_of0(vstd::arithmetic::power2::pow2(s) as int);
    }
}

proof fn lemma_mean_nonnegative(sum: int, hw: int, hh: int)
    requires
        0 <= sum,
        0 < hw,
        0 < hh,
    ensures
        0 <= mean_error(sum, hw, hh),
        sum == 0 ==> mean_error(sum, hw, hh) == 0,
{
    let a = (sum * 16) % 0x1_0000_0000;
    lemma_div_pos_is_pos(a, hw);
    let b = ((a / hw) * 16) % 0x1_0000_0000;
    lemma_div_pos_is_pos(b, hh);
    if sum == 0 {
        vstd::arithmetic::div_mod::lemma_div_of0(hw);
        vstd::arithmetic::div_mod::lemma_div_of0(hh);
    }
}

/// The frame and its prediction agree in quarter `q` of a block.
pub open spec fn agrees<P: Pixel>(p: PlaneIn<P>, q: int) -> bool {
    forall|i: int|
        0 <= i < p.hw * p.hh ==> #[trigger] p.src[pos(
            quarter_start(q, p.src_stride, p.hw, p.hh),
            p.src_stride,
            p.hw,
            i,
        )].val() == p.pre[pos(quarter_start(q, p.pre_stride, p.hw, p.hh), p.pre_stride, p.hw, i)].val()
}

proof fn lemma_error<P: Pixel>(p: PlaneIn<P>, luma: Seq<u32>, q: int)
    requires
        p.readable(),
    ensures
        0 <= p.error(luma, q),
        agrees(p, q) && (p.is_chroma ==> luma[q] == 0) ==> p.error(luma, q) == 0,
{
    let f = error_terms(
        p.src,
        quarter_start(q, p.src_stride, p.hw, p.hh),
        p.src_stride,
        p.pre,
        quarter_start(q, p.pre_stride, p.hw, p.hh),
        p.pre_stride,
        p.hw,
    );
    let t = total(f, p.hw * p.hh) % 0x1_0000_0000;
    lemma_shr_nonnegative(t, p.shift);
    lemma_mean_nonnegative(shr_int(t, p.shift), p.hw, p.hh);
    if agrees(p, q) {
        lemma_mul_nonnegative(p.hw, p.hh);
        assert forall|i: int| 0 <= i < p.hw * p.hh implies 0 <= #[trigger] f(i) <= 0 by {
            let a = p.src[pos(quarter_start(q, p.src_stride, p.hw, p.hh), p.src_stride, p.hw, i)].val();
            let b = p.pre[pos(quarter_start(q, p.pre_stride, p.hw, p.hh), p.pre_stride, p.hw, i)].val();
            assert(a == b);
            assert(f(i) == (a - b) * (a - b));
        }
        lemma_total_bounds(f, p.hw * p.hh, 0, 0);
    }
}

proof fn lemma_motion(ctx: TfKernelCtx, idx: int, q: int)
    ensures
        256 <= quad_motion(ctx, idx, q),
{
}

/// Every weight a plane of a prediction is added with lies between nothing and
/// that of the frame itself.
pub proof fn plane_weights_stay_in_range<P: Pixel>(p: PlaneIn<P>, ctx: TfKernelCtx, luma: Seq<u32>, q: int)
    requires
        p.readable(),
        0 <= p.decay,
        0 <= block_index(ctx) < 4,
        0 <= q < 4,
    ensures
        0 <= p.weight(ctx, luma, q) <= 1000,
{
    let idx = block_index(ctx);
    lemma_error(p, luma, q);
    lemma_motion(ctx, idx, q);
    weights_stay_in_range(
        p.error(luma, q),
        quad_block_error(ctx, idx, q, p.wide),
        quad_motion(ctx, idx, q),
        decay_used(ctx, idx, p.decay),
    );
}

/// A prediction that agrees with the frame, and whose block has no error,
/// weighs as much as the frame itself.
pub proof fn agreement_weighs_full<P: Pixel>(p: PlaneIn<P>, ctx: TfKernelCtx, luma: Seq<u32>, q: int)
    requires
        p.readable(),
        0 <= p.decay,
        0 <= block_index(ctx) < 4,
        0 <= q < 4,
        agrees(p, q),
        p.is_chroma ==> luma[q] == 0,
        quad_block_error(ctx, block_index(ctx), q, p.wide) == 0,
    ensures
        p.weight(ctx, luma, q) == 1000,
{
    let idx = block_index(ctx);
    lemma_error(p, luma, q);
    lemma_motion(ctx, idx, q);
    let d = max_int(decay_used(ctx, idx, p.decay) / 1024, 1);
    vstd::arithmetic::div_mod::lemma_div_of0(d);
    assert(0 * (quad_motion(ctx, idx, q) / 8) == 0);
    assert(EXPF_TAB_FP16[0] == 0x1_0000);
}

/// Adding a plane of a prediction changes the sums of its block alone, and
/// adds no more than the weight of the frame itself to any.
pub proof fn planes_add_to_their_block<P: Pixel>(
    p: PlaneIn<P>,
    ctx: TfKernelCtx,
    luma0: Seq<u32>,
    luma: Seq<u32>,
    accum0: Seq<u32>,
    accum: Seq<u32>,
    count0: Seq<u16>,
    count: Seq<u16>,
    k: int,
)
    requires
        p.ok(ctx, luma0, accum0, count0),
        0 <= p.decay,
        p.filtered(ctx, luma0, luma, accum0, accum, count0, count),
        0 <= k < accum.len(),
        0 <= k < count.len(),
    ensures
        accum.len() == accum0.len(),
        count.len() == count0.len(),
        !hit(k, p.pre_stride, 0, 0, 2 * p.hh, 2 * p.hw) ==> accum[k] == accum0[k] && count[k] == count0[k],
        hit(k, p.pre_stride, 0, 0, 2 * p.hh, 2 * p.hw) ==> {
            let w = p.weight(ctx, luma0, quarter_of(k / p.pre_stride, k % p.pre_stride, p.hh, p.hw));
            &&& 0 <= w <= 1000
            &&& count[k] == (count0[k] + w) % 0x1_0000
            &&& accum[k] == (accum0[k] + w * p.pre[k].val()) % 0x1_0000_0000
        },
{
    let q = quarter_of(k / p.pre_stride, k % p.pre_stride, p.hh, p.hw);
    assert(0 <= q < 4);
    plane_weights_stay_in_range(p, ctx, luma0, q);
    assert(p.weights(ctx, luma0)[q] == p.weight(ctx, luma0, q));
    assert(accum[k] == accum[k] && count[k] == count[k]);
}

proof fn lemma_plane_comes_back(
    before: Seq<u8>,
    after: Seq<u8>,
    off: int,
    stride: int,
    w: int,
    h: int,
    accum0: Seq<u32>,
    accum: Seq<u32>,
    count0: Seq<u16>,
    count: Seq<u16>,
)
    requires
        0 < w <= stride,
        0 < h,
        0 <= off,
        off + (h - 1) * stride + w <= before.len(),
        w * h <= accum.len(),
        w * h <= count.len(),
        seeded(before.subrange(off, before.len() as int), stride, w, w * h, accum0, accum, count0, count),
        averaged(before, after, off, stride, w, h, accum, count),
    ensures
        after == before,
{
    let src = before.subrange(off, before.len() as int);
    assert forall|k: int| 0 <= k < after.len() implies after[k] == before[k] by {
        if in_rect(k, off, stride, w, h) {
            let r = (k - off) / stride;
            let c = (k - off) % stride;
            vstd::arithmetic::div_mod::lemma_fundamental_div_mod(k - off, stride);
            vstd::arithmetic::mul::lemma_mul_is_commutative(stride, r);
            lemma_div_pos_is_pos(k - off, stride);
            unfiltered_blocks_are_kept(
                src,
                stride,
                w,
                h,
                accum0,
                accum,
                count0,
                count,
                before,
                after,
                off,
                stride,
                r,
                c,
            );
            crate::arith::lemma_raster_index(r, c, w);
            assert(pos(0, stride, w, r * w + c) == r * stride + c);
            lemma_mul_inequality(r, h - 1, stride);
            lemma_mul_nonnegative(r, stride);
            assert(src[r * stride + c] == before[k]);
        } else {
            assert(after[k] == before[k]);
        }
    }
    assert(after =~= before);
}

/// Seeding the sums of a block with the frame alone and averaging them gives
/// back all three planes.
pub proof fn the_frame_alone_comes_back(
    tf_chroma: bool,
    before: [Vec<u8>; 3],
    after: [Vec<u8>; 3],
    stride: Seq<usize>,
    y_off: int,
    c_off: int,
    ss_x: int,
    ss_y: int,
    accum0: [Vec<u32>; 3],
    accum: [Vec<u32>; 3],
    count0: [Vec<u16>; 3],
    count: [Vec<u16>; 3],
)
    requires
        0 <= y_off,
        0 <= c_off,
        stride.len() == 3,
        tf_chroma ==> stride[1] == chroma(stride[0] as int, ss_x),
        average_inputs(
            tf_chroma,
            before,
            accum,
            count,
            stride,
            y_off,
            c_off,
            chroma(64, ss_x),
            chroma(64, ss_y),
        ),
        block_seeded(
            tf_chroma,
            before[0]@.subrange(y_off, before[0]@.len() as int),
            before[1]@.subrange(c_off, before[1]@.len() as int),
            before[2]@.subrange(c_off, before[2]@.len() as int),
            stride[0] as int,
            64,
            64,
            ss_x,
            ss_y,
            accum0,
            accum,
            count0,
            count,
        ),
        block_averaged(
            tf_chroma,
            before,
            after,
            accum,
            count,
            stride,
            y_off,
            c_off,
            chroma(64, ss_x),
            chroma(64, ss_y),
        ),
    ensures
        after[0]@ == before[0]@,
        after[1]@ == before[1]@,
        after[2]@ == before[2]@,
{
    lemma_plane_comes_back(
        before[0]@,
        after[0]@,
        y_off,
        stride[0] as int,
        64,
        64,
        accum0[0]@,
        accum[0]@,
        count0[0]@,
        count[0]@,
    );
    if tf_chroma {
        lemma_plane_comes_back(
            before[1]@,
            after[1]@,
            c_off,
            stride[1] as int,
            chroma(64, ss_x),
            chroma(64, ss_y),
            accum0[1]@,
            accum[1]@,
            count0[1]@,
            count[1]@,
        );
        lemma_plane_comes_back(
            before[2]@,
            after[2]@,
            c_off,
            stride[1] as int,
            chroma(64, ss_x),
            chroma(64, ss_y),
            accum0[2]@,
            accum[2]@,
            count0[2]@,
            count[2]@,
        );
    }
}

} // verus!
