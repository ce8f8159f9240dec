//! How noisy a plane is: the Laplacian of its smooth samples.

use vstd::arithmetic::mul::{lemma_mul_inequality, lemma_mul_is_commutative, lemma_mul_nonnegative};
use vstd::arithmetic::power2::{lemma2_to64, lemma_pow2_pos, pow2};
use vstd::prelude::*;

use crate::arith::{
    abs_i32, abs_int, lemma_raster_bounds, lemma_raster_index, low_i32, round_shift, shr_i32, total, wrap_i32,
};

verus! {

/// Gradients from this on are an edge.
pub const EDGE_THRESHOLD: i32 = 50;

/// Smooth samples below this do not suffice for an estimate.
pub const SMOOTH_THRESHOLD: i64 = 16;

/// `sqrt(pi / 2)` with 16 fraction bits.
pub const SQRT_PI_BY_2_FP16: i64 = 82137;

/// The estimate of a plane that has none: minus one.
pub const NO_ESTIMATE: i32 = -65536;

/// Sample at row `i` and column `j`.
pub open spec fn px(src: Seq<u16>, stride: int, i: int, j: int) -> int {
    src[i * stride + j] as int
}

/// Gradient of a sample: horizontal plus vertical.
pub open spec fn gradient(s: Seq<u16>, n: int, i: int, j: int) -> int {
    abs_int(
        px(s, n, i - 1, j - 1) - px(s, n, i - 1, j + 1) + px(s, n, i + 1, j - 1) - px(s, n, i + 1, j + 1) + 2 * (px(
            s,
            n,
            i,
            j - 1,
        ) - px(s, n, i, j + 1)),
    ) + abs_int(
        px(s, n, i - 1, j - 1) - px(s, n, i + 1, j - 1) + px(s, n, i - 1, j + 1) - px(s, n, i + 1, j + 1) + 2 * (px(
            s,
            n,
            i - 1,
            j,
        ) - px(s, n, i + 1, j)),
    )
}

/// Laplacian of a sample.
pub open spec fn laplacian(s: Seq<u16>, n: int, i: int, j: int) -> int {
    4 * px(s, n, i, j) - 2 * (px(s, n, i, j - 1) + px(s, n, i, j + 1) + px(s, n, i - 1, j) + px(s, n, i + 1, j)) + (
    px(s, n, i - 1, j - 1) + px(s, n, i - 1, j + 1) + px(s, n, i + 1, j - 1) + px(s, n, i + 1, j + 1))
}

/// The sample does not lie on an edge.
pub open spec fn smooth(s: Seq<u16>, n: int, shift: nat, i: int, j: int) -> bool {
    round_shift(gradient(s, n, i, j), shift) < EDGE_THRESHOLD
}

/// Row of inner sample `k`; the outermost rows and columns are left out.
pub open spec fn inner_row(width: int, k: int) -> int {
    1 + k / (width - 2)
}

/// Column of inner sample `k`.
pub open spec fn inner_col(width: int, k: int) -> int {
    1 + k % (width - 2)
}

/// Magnitudes of the Laplacians of the smooth samples.
pub open spec fn noise_terms(s: Seq<u16>, n: int, width: int, shift: nat) -> spec_fn(int) -> int {
    |k: int|
        if smooth(s, n, shift, inner_row(width, k), inner_col(width, k)) {
            round_shift(abs_int(laplacian(s, n, inner_row(width, k), inner_col(width, k))), shift)
        } else {
            0
        }
}

/// One for each smooth sample.
pub open spec fn smooth_terms(s: Seq<u16>, n: int, width: int, shift: nat) -> spec_fn(int) -> int {
    |k: int|
        if smooth(s, n, shift, inner_row(width, k), inner_col(width, k)) {
            1
        } else {
            0
        }
}

/// Noise of a plane, with 16 fraction bits: the mean magnitude over the smooth
/// samples, scaled; minus one where there are too few of them.
pub open spec fn noise_of(s: Seq<u16>, n: int, width: int, height: int, shift: nat) -> int {
    let inner = (width - 2) * (height - 2);
    let num = total(smooth_terms(s, n, width, shift), inner);
    if width < 3 || height < 3 || num < SMOOTH_THRESHOLD {
        NO_ESTIMATE as int
    } else {
        wrap_i32((total(noise_terms(s, n, width, shift), inner) * 82137) / (6 * num))
    }
}

fn rounded(x: i32, shift: u32) -> (r: i32)
    requires
        0 <= x <= 0x3fff_ffff,
        shift <= 16,
    ensures
        r == round_shift(x as int, shift as nat),
        0 <= r <= x + 0x8000,
{
    if shift == 0 {
        proof {
            lemma2_to64();
        }
        return x;
    }
    let half: i32 = crate::arith::pow2_i32(shift - 1);
    proof {
        lemma_pow2_pos(shift as nat);
        vstd::arithmetic::div_mod::lemma_div_pos_is_pos(x + half, pow2(shift as nat) as int);
        vstd::arithmetic::div_mod::lemma_div_nonincreasing(x + half, pow2(shift as nat) as int);
    }
    shr_i32(x + half, shift)
}

/// Magnitude of the Laplacian of an inner sample, if it is smooth.
fn inspect(src: &[u16], stride: usize, height: usize, width: usize, i: usize, j: usize, shift: u32) -> (r: Option<
    i32,
>)
    requires
        shift <= 16,
        1 <= i < height - 1,
        1 <= j < width - 1,
        width <= stride,
        (height - 1) * stride + width <= src@.len(),
    ensures
        r is Some <==> smooth(src@, stride as int, shift as nat, i as int, j as int),
        r is Some ==> r->0 == round_shift(
            abs_int(laplacian(src@, stride as int, i as int, j as int)),
            shift as nat,
        ),
{
    let len: usize = src.len();
    proof {
        lemma_mul_inequality(i + 1, height - 1, stride as int);
        lemma_mul_nonnegative(i - 1, stride as int);
        assert((i + 1) * stride == i * stride + stride && (i - 1) * stride == i * stride - stride) by {
            vstd::arithmetic::mul::lemma_mul_is_distributive_add_other_way(stride as int, i as int, 1);
            vstd::arithmetic::mul::lemma_mul_is_distributive_sub_other_way(stride as int, i as int, 1);
        }
    }
    let c: usize = i * stride + j;
    let up: usize = c - stride;
    let dn: usize = c + stride;
    let nw: i32 = src[up - 1] as i32;
    let n: i32 = src[up] as i32;
    let ne: i32 = src[up + 1] as i32;
    let w: i32 = src[c - 1] as i32;
    let m: i32 = src[c] as i32;
    let e: i32 = src[c + 1] as i32;
    let sw: i32 = src[dn - 1] as i32;
    let s: i32 = src[dn] as i32;
    let se: i32 = src[dn + 1] as i32;
    let g_x: i32 = (nw - ne) + (sw - se) + 2 * (w - e);
    let g_y: i32 = (nw - sw) + (ne - se) + 2 * (n - s);
    let steep: i32 = abs_i32(g_x) + abs_i32(g_y);
    assert(steep == gradient(src@, stride as int, i as int, j as int));
    if rounded(steep, shift) < EDGE_THRESHOLD {
        let v: i32 = 4 * m - 2 * (w + e + n + s) + (nw + ne + sw + se);
        assert(v == laplacian(src@, stride as int, i as int, j as int));
        Some(rounded(abs_i32(v), shift))
    } else {
        None
    }
}

/// Noise of a plane of wide samples of the given bit depth.
pub fn estimate_noise_highbd_fp16(src: &[u16], width: usize, height: usize, stride: usize, bd: u32) -> (r: i32)
    requires
        8 <= bd <= 24,
        width <= 0x1000_0000,
        height <= 0x1000_0000,
        width <= stride,
        width >= 3 && height >= 3 ==> {
            &&& (height - 1) * stride + width <= src@.len()
            &&& total(
                noise_terms(src@, stride as int, width as int, (bd - 8) as nat),
                (width - 2) * (height - 2),
            ) * 82137 <= i64::MAX
        },
    ensures
        r == noise_of(src@, stride as int, width as int, height as int, (bd - 8) as nat),
{
    if width < 3 || height < 3 {
        return NO_ESTIMATE;
    }
    let shift: u32 = bd - 8;
    let len: usize = src.len();
    let ghost f = noise_terms(src@, stride as int, width as int, shift as nat);
    let ghost g = smooth_terms(src@, stride as int, width as int, shift as nat);
    let ghost inner = (width - 2) * (height - 2);
    proof {
        lemma_terms(src@, stride as int, width as int, height as int, shift as nat);
        assert(0 * (width - 2) == 0);
        vstd::arithmetic::mul::lemma_mul_upper_bound(width - 2, 0x1000_0000, height - 2, 0x1000_0000);
    }
    let mut sum: i64 = 0;
    let mut num: i64 = 0;
    let mut i: usize = 1;
    while i < height - 1
        invariant
            1 <= i <= height - 1,
            3 <= width <= stride,
            3 <= height,
            shift <= 16,
            len == src@.len(),
            (height - 1) * stride + width <= len,
            f == noise_terms(src@, stride as int, width as int, shift as nat),
            g == smooth_terms(src@, stride as int, width as int, shift as nat),
            inner == (width - 2) * (height - 2),
            inner <= 0x100_0000_0000_0000,
            forall|k: int| 0 <= k <= inner ==> 0 <= #[trigger] total(f, k) <= total(f, inner),
            total(f, inner) * 82137 <= i64::MAX,
            sum == total(f, (i - 1) * (width - 2)),
            num == total(g, (i - 1) * (width - 2)),
            0 <= num <= (i - 1) * (width - 2),
        decreases height - i,
    {
        let mut j: usize = 1;
        while j < width - 1
            invariant
                1 <= i < height - 1,
                1 <= j <= width - 1,
                3 <= width <= stride,
                3 <= height,
                shift <= 16,
                len == src@.len(),
                (height - 1) * stride + width <= len,
                f == noise_terms(src@, stride as int, width as int, shift as nat),
                g == smooth_terms(src@, stride as int, width as int, shift as nat),
                inner == (width - 2) * (height - 2),
                inner <= 0x100_0000_0000_0000,
                forall|k: int| 0 <= k <= inner ==> 0 <= #[trigger] total(f, k) <= total(f, inner),
                total(f, inner) * 82137 <= i64::MAX,
                sum == total(f, (i - 1) * (width - 2) + (j - 1)),
                num == total(g, (i - 1) * (width - 2) + (j - 1)),
                0 <= num <= (i - 1) * (width - 2) + (j - 1),
            decreases width - j,
        {
            let ghost k = (i - 1) * (width - 2) + (j - 1);
            proof {
                lemma_raster_index(i - 1, j - 1, width - 2);
                lemma_raster_bounds(i - 1, j - 1, width - 2, height - 2);
                assert(inner_row(width as int, k) == i && inner_col(width as int, k) == j);
                assert(0 <= total(f, k + 1) <= total(f, inner));
            }
            match inspect(src, stride, height, width, i, j, shift) {
                Some(term) => {
                    assert(f(k) == term && g(k) == 1);
                    sum = sum + term as i64;
                    num = num + 1;
                },
                None => {
                    assert(f(k) == 0 && g(k) == 0);
                },
            }
            j = j + 1;
        }
        proof {
            assert(i * (width - 2) == (i - 1) * (width - 2) + (width - 2)) by {
                vstd::arithmetic::mul::lemma_mul_is_distributive_add_other_way(width - 2, i - 1, 1);
            }
        }
        i = i + 1;
    }
    proof {
        lemma_mul_is_commutative(width - 2, height - 2);
        assert(0 <= total(f, inner) <= total(f, inner));
    }
    if num < SMOOTH_THRESHOLD {
        return NO_ESTIMATE;
    }
    low_i32((sum * SQRT_PI_BY_2_FP16) / (6 * num))
}

proof fn lemma_terms(s: Seq<u16>, n: int, width: int, height: int, shift: nat)
    requires
        width >= 3,
        height >= 3,
    ensures
        forall|k: int|
            0 <= k <= (width - 2) * (height - 2) ==> 0 <= #[trigger] total(noise_terms(s, n, width, shift), k)
                <= total(noise_terms(s, n, width, shift), (width - 2) * (height - 2)),
{
    let f = noise_terms(s, n, width, shift);
    let inner = (width - 2) * (height - 2);
    assert forall|k: int| 0 <= k <= inner implies 0 <= #[trigger] total(f, k) <= total(f, inner) by {
        lemma_term_sums(s, n, width, shift, 0, k);
        lemma_term_sums(s, n, width, shift, k, inner);
    }
}

proof fn lemma_term_sums(s: Seq<u16>, n: int, width: int, shift: nat, a: int, b: int)
    requires
        0 <= a <= b,
    ensures
        total(noise_terms(s, n, width, shift), a) <= total(noise_terms(s, n, width, shift), b),
    decreases b - a,
{
    if a < b {
        lemma_term_sums(s, n, width, shift, a, b - 1);
        let f = noise_terms(s, n, width, shift);
        let v = abs_int(laplacian(s, n, inner_row(width, b - 1), inner_col(width, b - 1)));
        assert(f(b - 1) >= 0) by {
            lemma_pow2_pos(shift);
            if shift > 0 {
                lemma_pow2_pos((shift - 1) as nat);
                vstd::arithmetic::div_mod::lemma_div_pos_is_pos(
                    v + pow2((shift - 1) as nat) as int,
                    pow2(shift) as int,
                );
            }
        }
    }
}

} // verus!
