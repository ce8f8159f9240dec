//! The scales that errors and displacements are brought to before a prediction
//! is weighed.

use vstd::arithmetic::div_mod::{lemma_div_denominator, lemma_fundamental_div_mod, lemma_fundamental_div_mod_converse};
use vstd::arithmetic::power2::{lemma2_to64, lemma_pow2_pos, lemma_pow2_unfold, pow2};
use vstd::prelude::*;

use crate::temporal_filtering::kernels::{
    block_index, blended_error, decay_used, mean_error, motion_factor, quad_block_error, quad_motion, quarter_start,
    TfKernelCtx,
};
use crate::temporal_filtering::weights::{quartered, quarterings, sqrt_spec, SQRT_ARRAY_FP16};

verus! {

/// The approximate square root is the exact one, rounded down, below 16, and
/// of four times a number it is twice that of the number, up to rounding.
pub proof fn roots_double_with_quadruples(x: int)
    requires
        0 <= x < 0x4000_0000,
    ensures
        x < 16 ==> sqrt_spec(x) == if x < 1 {
            0int
        } else if x < 4 {
            1
        } else if x < 9 {
            2
        } else {
            3
        },
        x >= 4 ==> 2 * sqrt_spec(x) <= sqrt_spec(4 * x) <= 2 * sqrt_spec(x) + 1,
{
    lemma2_to64();
    if x < 16 {
        let t = SQRT_ARRAY_FP16[x] as int;
        let root: int = if x < 1 {
            0
        } else if x < 4 {
            1
        } else if x < 9 {
            2
        } else {
            3
        };
        assert(65536 * root <= t < 65536 * root + 65536) by {
            assert(x == 0 || x == 1 || x == 2 || x == 3 || x == 4 || x == 5 || x == 6 || x == 7 || x == 8 || x == 9 || x
                == 10 || x == 11 || x == 12 || x == 13 || x == 14 || x == 15);
        }
        assert(pow2((16 - quarterings(x)) as nat) == 65536);
        lemma_fundamental_div_mod_converse(t, 65536, root, t - 65536 * root);
    }
    if x >= 4 {
        assert((4 * x) / 4 == x);
        let k = quarterings(x);
        assert(quartered(4 * x) == quartered(x) && quarterings(4 * x) == k + 1);
        lemma_few_quarterings(x, 15);
        let t = SQRT_ARRAY_FP16[quartered(x)] as int;
        let d = pow2((15 - k) as nat) as int;
        lemma_pow2_pos((15 - k) as nat);
        lemma_pow2_unfold((16 - k) as nat);
        lemma_div_denominator(t, d, 2);
        assert(d * 2 == pow2((16 - k) as nat));
    }
}

proof fn lemma_few_quarterings(x: int, n: nat)
    requires
        0 <= x,
        x < pow2(2 * n),
        n >= 2,
    ensures
        quarterings(x) <= n - 2,
    decreases n,
{
    lemma2_to64();
    if x >= 16 {
        if n == 2 {
            assert(pow2(4) == 16);
        } else {
            lemma_pow2_unfold(2 * n);
            lemma_pow2_unfold((2 * n - 1) as nat);
            assert(pow2(2 * n) == 4 * pow2((2 * (n - 1)) as nat));
            lemma_few_quarterings(x / 4, (n - 1) as nat);
        }
    }
}

/// A block that did not move counts as one, with eight fraction bits, and no
/// block counts as less. Displacements count alike in every direction.
pub proof fn still_blocks_count_as_one(x: int, y: int, th: int)
    ensures
        motion_factor(0, 0, th) == 256,
        motion_factor(x, y, th) >= 256,
        motion_factor(x, y, th) == motion_factor(-x, y, th),
        motion_factor(x, y, th) == motion_factor(y, x, th),
{
    lemma2_to64();
    assert(sqrt_spec(0) == 0);
    assert((-x) * (-x) == x * x) by (nonlinear_arith);
    assert((0 * 0 + 0 * 0) * 256 == 0int);
    let limit = crate::arith::max_int(((th * 0x1_0000) % 0x1_0000_0000) / 10, 0x1_0000);
    let l = limit / 256;
    assert(0int / l == 0) by (nonlinear_arith)
        requires
            l > 0,
    ;
}

/// Beyond a tenth of the threshold, and beyond one, a displacement counts as
/// its length over that, with eight fraction bits: the root has four, and the
/// threshold is taken in 256ths.
pub proof fn displacements_count_by_their_length(x: int, y: int, th: int)
    requires
        0 <= th < 0x1_0000,
        (x * x + y * y) * 256 < 0x1_0000_0000,
    ensures
        ({
            let root = sqrt_spec((x * x + y * y) * 256);
            let m = motion_factor(x, y, th);
            let limit = (if th < 10 {
                65536
            } else {
                (th * 65536) / 10
            }) / 256;
            m == 256 || m * limit <= 4096 * root < m * limit + limit
        }),
{
    let root = sqrt_spec((x * x + y * y) * 256);
    let limit = (if th < 10 {
        65536
    } else {
        (th * 65536) / 10
    }) / 256;
    assert(0 <= x * x + y * y) by (nonlinear_arith);
    lemma_fundamental_div_mod(root * 4096, limit);
    let m = (root * 4096) / limit;
    assert(limit * m == m * limit) by (nonlinear_arith);
}

/// The mean of squared errors has eight fraction bits: over quarters of sixteen
/// by sixteen samples it is the sum itself, over eight by eight four times.
pub proof fn mean_errors_have_eight_bits(sum: int)
    requires
        0 <= sum < 0x400_0000,
    ensures
        256 * mean_error(sum, 16, 16) == 256 * sum,
        64 * mean_error(sum, 8, 8) == 256 * sum,
        128 * mean_error(sum, 8, 16) == 256 * sum,
{
    lemma_mean(sum, 16, 16, sum, sum);
    lemma_mean(sum, 8, 8, 2 * sum, 4 * sum);
    lemma_mean(sum, 8, 16, 2 * sum, 2 * sum);
}

proof fn lemma_mean(sum: int, hw: int, hh: int, a: int, b: int)
    requires
        0 < hw,
        0 < hh,
        0 <= sum < 0x400_0000,
        0 <= a < 0x1000_0000,
        a * hw == 16 * sum,
        b * hh == 16 * a,
    ensures
        mean_error(sum, hw, hh) == b,
{
    assert((sum * 16) % 0x1_0000_0000 == sum * 16);
    lemma_fundamental_div_mod_converse(sum * 16, hw, a, 0);
    assert((a * 16) % 0x1_0000_0000 == a * 16);
    lemma_fundamental_div_mod_converse(a * 16, hh, b, 0);
}

/// Chroma counts a sixth of the luma error in place of a sixth of its own.
pub proof fn chroma_takes_in_luma(own: int, luma: int)
    ensures
        6 * blended_error(own, luma, true) <= 5 * own + luma < 6 * blended_error(own, luma, true) + 6,
        blended_error(own, luma, false) == own,
        blended_error(own, own, true) == own,
{
}

/// A block in one piece lends its displacement and a quarter of its error to
/// each quarter, and decays twice as slow; one in quarters has one of each for
/// every quarter. Wide samples count a sixteenth.
pub proof fn quarters_go_by_their_own(ctx: TfKernelCtx, q: int, decay: int)
    requires
        0 <= q < 4,
        0 <= ctx.tf_block_col < 2,
        0 <= ctx.tf_block_row < 2,
        0 <= decay < 0x8000_0000,
        forall|i: int| 0 <= i < 16 ==> #[trigger] ctx.tf_16x16_block_error[i] < 0x1_0000_0000,
        forall|i: int| 0 <= i < 4 ==> #[trigger] ctx.tf_32x32_block_error[i] < 0x1_0000_0000,
    ensures
        ({
            let b = if ctx.tf_block_row == 0 {
                ctx.tf_block_col as int
            } else {
                ctx.tf_block_col + 2
            };
            let th = ctx.tf_mv_dist_th as int;
            &&& b == block_index(ctx)
            &&& ctx.tf_32x32_block_split_flag[b] == 0 ==> {
                &&& decay_used(ctx, b, decay) == 2 * decay
                &&& quad_motion(ctx, b, q) == motion_factor(ctx.tf_32x32_mv_x[b] as int, ctx.tf_32x32_mv_y[b] as int, th)
                &&& 4 * quad_block_error(ctx, b, q, false) <= ctx.tf_32x32_block_error[b] < 4 * quad_block_error(
                    ctx,
                    b,
                    q,
                    false,
                ) + 4
                &&& quad_block_error(ctx, b, q, true) == quad_block_error(ctx, b, q, false) / 16
            }
            &&& ctx.tf_32x32_block_split_flag[b] != 0 ==> {
                &&& decay_used(ctx, b, decay) == decay
                &&& quad_motion(ctx, b, q) == motion_factor(
                    ctx.tf_16x16_mv_x[4 * b + q] as int,
                    ctx.tf_16x16_mv_y[4 * b + q] as int,
                    th,
                )
                &&& quad_block_error(ctx, b, q, false) == ctx.tf_16x16_block_error[4 * b + q]
                &&& quad_block_error(ctx, b, q, true) == quad_block_error(ctx, b, q, false) / 16
            }
        }),
{
}

/// The quarters of a block lie in two rows of two.
pub proof fn quarters_lie_in_two_rows(stride: int, hw: int, hh: int)
    ensures
        quarter_start(0, stride, hw, hh) == 0,
        quarter_start(1, stride, hw, hh) == hw,
        quarter_start(2, stride, hw, hh) == hh * stride,
        quarter_start(3, stride, hw, hh) == hh * stride + hw,
{
    assert(0 * hh == 0 && 1 * hh == hh && 0 * hw == 0 && 1 * hw == hw && 0 * stride == 0);
}

} // verus!
