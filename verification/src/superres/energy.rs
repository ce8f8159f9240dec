//! The horizontal detail of a picture, band by band, and the denominator it
//! suggests.

use vstd::arithmetic::mul::{lemma_mul_inequality, lemma_mul_is_commutative, lemma_mul_nonnegative};
use vstd::prelude::*;

use crate::arith::{lemma_raster_bounds, lemma_raster_index, total};
use crate::raster::lemma_next_row;
use crate::superres::SCALE_NUMERATOR;
use crate::types::FrameUpdateType;

verus! {

/// Energy thresholds relative to the squared quantizer, in thousandths: of a
/// key frame that stands alone, of other key frames, and of base-layer
/// references.
pub const ENERGY_BY_Q2_THRESH_KEYFRAME_SOLO: u32 = 12;

pub const ENERGY_BY_Q2_THRESH_KEYFRAME: u32 = 8;

pub const ENERGY_BY_Q2_THRESH_ARFFRAME: u32 = 8;

/// Energy threshold relative to the energy of all bands, in thousandths.
pub const ENERGY_BY_AC_THRESH: u32 = 200;

/// Energy threshold of a frame relative to the squared quantizer, in
/// thousandths. Only key frames and base-layer references have one.
pub fn energy_by_q2_thresh(frames_to_key: i32, update_type: FrameUpdateType) -> (r: Option<u32>)
    ensures
        r == match update_type {
            FrameUpdateType::Arf => Some(8u32),
            FrameUpdateType::Kf => Some(
                if frames_to_key <= 1 {
                    12u32
                } else {
                    8u32
                },
            ),
            _ => None,
        },
{
    match update_type {
        FrameUpdateType::Arf => Some(ENERGY_BY_Q2_THRESH_ARFFRAME),
        FrameUpdateType::Kf => {
            if frames_to_key <= 1 {
                Some(ENERGY_BY_Q2_THRESH_KEYFRAME_SOLO)
            } else {
                Some(ENERGY_BY_Q2_THRESH_KEYFRAME)
            }
        },
        _ => None,
    }
}

/// The highest of the bands 7 to 15 that carries more energy than the
/// threshold, or 7 where none does.
pub open spec fn top_band(above: Seq<bool>, k: int) -> int
    decreases k,
{
    if k <= 8 || above[k - 1] {
        k
    } else {
        top_band(above, k - 1)
    }
}

/// The denominator a picture's detail suggests: the higher the highest band
/// that carries more energy than the threshold, the less it is scaled.
/// `above[k]` says that the bands from `k` on carry more.
pub fn denom_from_qindex_energy(above: &[bool; 16]) -> (r: u8)
    ensures
        r == 24 - top_band(above@, 16),
        8 <= r <= 16,
        r == 16 || above@[23 - r],
        forall|k: int| 24 - r <= k < 16 ==> !#[trigger] above@[k],
{
    let mut k: usize = 16;
    while k > 8 && !above[k - 1]
        invariant
            8 <= k <= 16,
            top_band(above@, 16) == top_band(above@, k as int),
            forall|i: int| k <= i < 16 ==> !#[trigger] above@[i],
        decreases k,
    {
        k = k - 1;
    }
    (3 * SCALE_NUMERATOR as usize - k) as u8
}

/// More detail never suggests a larger denominator.
pub proof fn more_detail_scales_less(a: Seq<bool>, b: Seq<bool>, k: int)
    requires
        8 <= k <= 16,
        a.len() == 16,
        b.len() == 16,
        forall|i: int| 0 <= i < 16 && #[trigger] a[i] ==> b[i],
    ensures
        24 - top_band(b, k) <= 24 - top_band(a, k),
    decreases k,
{
    if k > 8 && !b[k - 1] {
        more_detail_scales_less(a, b, k - 1);
    } else if k > 8 {
        lemma_top_band_bound(a, k);
    }
}

proof fn lemma_top_band_bound(a: Seq<bool>, k: int)
    requires
        8 <= k,
    ensures
        8 <= top_band(a, k) <= k,
    decreases k,
{
    if k > 8 && !a[k - 1] {
        lemma_top_band_bound(a, k - 1);
    }
}

/// Energy of each band, summed over the blocks of a picture, and the number
/// of blocks.
#[derive(Debug, Clone, Copy, PartialEq, Eq)]
pub struct HorFreq {
    pub energy: [u64; 16],
    pub blocks: u64,
}

/// `transform` takes every block of sixteen by four samples, and returns
/// coefficients below `2^30`.
pub open spec fn is_transform<F: Fn([i32; 64]) -> [i32; 64]>(transform: F) -> bool {
    &&& forall|x: [i32; 64]| #[trigger] call_requires(transform, (x,))
    &&& forall|x: [i32; 64], a: [i32; 64], i: int| #[trigger]
        call_ensures(transform, (x,), a) && 0 <= i < 64 ==> -0x4000_0000 < #[trigger] a@[i] < 0x4000_0000
}

/// Number of whole blocks of `side` samples along `n` samples. A block that
/// ends with the last sample is left out.
pub open spec fn blocks_along(n: int, side: int) -> int {
    if n <= 0 {
        0
    } else {
        (n - 1) / side
    }
}

/// A block of the picture, row by row.
pub open spec fn is_block(x: Seq<i32>, luma: Seq<u8>, stride: int, r: int, c: int) -> bool {
    &&& x.len() == 64
    &&& forall|i: int| 0 <= i < 64 ==> #[trigger] x[i] == luma[(4 * r + i / 16) * stride + 16 * c + i % 16]
}

/// `transform` has returned the coefficients of a block of the picture.
pub open spec fn is_coefficients<F: Fn([i32; 64]) -> [i32; 64]>(
    transform: F,
    luma: Seq<u8>,
    stride: int,
    r: int,
    c: int,
    a: [i32; 64],
) -> bool {
    exists|x: [i32; 64]| #[trigger] call_ensures(transform, (x,), a) && is_block(x@, luma, stride, r, c)
}

/// `transform` has returned the coefficients of the first blocks of the
/// picture, row by row.
pub open spec fn are_coefficients<F: Fn([i32; 64]) -> [i32; 64]>(
    transform: F,
    luma: Seq<u8>,
    stride: int,
    cols: int,
    a: Seq<[i32; 64]>,
) -> bool {
    forall|b: int|
        0 <= b < a.len() ==> is_coefficients(transform, luma, stride, b / cols, b % cols, #[trigger] a[b])
}

/// Energy of a band of a block: a quarter of its squared coefficients,
/// rounded to nearest.
pub open spec fn band_energy(a: Seq<i32>, k: int) -> int {
    (a[k] * a[k] + a[k + 16] * a[k + 16] + a[k + 32] * a[k + 32] + a[k + 48] * a[k + 48] + 2) / 4
}

/// Energies of a band, block by block.
pub open spec fn band_terms(a: Seq<[i32; 64]>, k: int) -> spec_fn(int) -> int {
    |b: int| band_energy(a[b]@, k)
}

/// Energy of a band of the blocks.
pub open spec fn energy_of(a: Seq<[i32; 64]>, k: int) -> int {
    total(band_terms(a, k), a.len() as int)
}

/// The energy of every band fits in 64 bits.
pub open spec fn bands_fit(a: Seq<[i32; 64]>) -> bool {
    forall|k: int| 1 <= k < 16 ==> #[trigger] energy_of(a, k) <= u64::MAX
}

/// Whatever `transform` returns for the blocks of a picture, the energy of
/// every band fits in 64 bits.
pub open spec fn energies_fit<F: Fn([i32; 64]) -> [i32; 64]>(
    transform: F,
    luma: Seq<u8>,
    stride: int,
    rows: int,
    cols: int,
) -> bool {
    forall|a: Seq<[i32; 64]>| #[trigger]
        are_coefficients(transform, luma, stride, cols, a) && a.len() <= rows * cols ==> bands_fit(a)
}

proof fn lemma_more_terms(a: Seq<[i32; 64]>, t: [i32; 64], k: int, n: int)
    requires
        0 <= n <= a.len(),
    ensures
        total(band_terms(a.push(t), k), n) == total(band_terms(a, k), n),
    decreases n,
{
    if n > 0 {
        lemma_more_terms(a, t, k, n - 1);
    }
}

fn take_block(luma: &[u8], stride: usize, i: usize, j: usize) -> (x: [i32; 64])
    requires
        i + 4 <= usize::MAX,
        (i + 3) * stride + j + 16 <= luma@.len(),
    ensures
        forall|k: int| 0 <= k < 64 ==> #[trigger] x@[k] == luma@[(i + k / 16) * stride + j + k % 16],
{
    let len: usize = luma.len();
    let mut x: [i32; 64] = [0; 64];
    let mut k: usize = 0;
    while k < 64
        invariant
            k <= 64,
            i + 4 <= usize::MAX,
            len == luma@.len(),
            (i + 3) * stride + j + 16 <= len,
            forall|m: int| 0 <= m < k ==> #[trigger] x@[m] == luma@[(i + m / 16) * stride + j + m % 16],
        decreases 64 - k,
    {
        let r: usize = i + k / 16;
        proof {
            lemma_mul_inequality(r as int, i + 3, stride as int);
            lemma_mul_nonnegative(r as int, stride as int);
        }
        x[k] = luma[r * stride + j + k % 16] as i32;
        k = k + 1;
    }
    x
}

fn block_energy(a: &[i32; 64], k: usize) -> (r: u64)
    requires
        k < 16,
        forall|i: int| 0 <= i < 64 ==> -0x4000_0000 < #[trigger] a@[i] < 0x4000_0000,
    ensures
        r == band_energy(a@, k as int),
{
    let c0: i64 = a[k] as i64;
    let c1: i64 = a[k + 16] as i64;
    let c2: i64 = a[k + 32] as i64;
    let c3: i64 = a[k + 48] as i64;
    proof {
        lemma_square(c0 as int);
        lemma_square(c1 as int);
        lemma_square(c2 as int);
        lemma_square(c3 as int);
    }
    ((c0 * c0 + c1 * c1 + c2 * c2 + c3 * c3) as u64 + 2) / 4
}

proof fn lemma_square(c: int)
    requires
        -0x4000_0000 < c < 0x4000_0000,
    ensures
        0 <= c * c < 0x1000_0000_0000_0000,
{
    assert(0 <= c * c < 0x1000_0000_0000_0000) by (nonlinear_arith)
        requires
            -0x4000_0000 < c < 0x4000_0000,
    ;
}

/// Adds the energies of a block to those of the blocks before it, whose
/// coefficients are `a`.
fn add_block<F: Fn([i32; 64]) -> [i32; 64]>(
    energy: &mut [u64; 16],
    luma: &[u8],
    stride: usize,
    r: usize,
    c: usize,
    rows: usize,
    cols: usize,
    transform: &F,
    Ghost(a): Ghost<Seq<[i32; 64]>>,
) -> (t: Ghost<[i32; 64]>)
    requires
        is_transform(*transform),
        r < rows,
        c < cols,
        4 * r + 4 <= usize::MAX,
        16 * c + 16 <= usize::MAX,
        (4 * r + 3) * stride + 16 * c + 16 <= luma@.len(),
        a.len() == r * cols + c,
        are_coefficients(*transform, luma@, stride as int, cols as int, a),
        energies_fit(*transform, luma@, stride as int, rows as int, cols as int),
        old(energy)@[0] == 0,
        forall|k: int| 1 <= k < 16 ==> #[trigger] old(energy)@[k] == energy_of(a, k),
    ensures
        are_coefficients(*transform, luma@, stride as int, cols as int, a.push(t@)),
        final(energy)@[0] == 0,
        forall|k: int| 1 <= k < 16 ==> #[trigger] final(energy)@[k] == energy_of(a.push(t@), k),
{
    let x: [i32; 64] = take_block(luma, stride, 4 * r, 16 * c);
    let t: [i32; 64] = transform(x);
    let ghost longer = a.push(t);
    let ghost n = a.len() as int;
    proof {
        lemma_raster_index(r as int, c as int, cols as int);
        lemma_raster_bounds(r as int, c as int, cols as int, rows as int);
        lemma_mul_is_commutative(rows as int, cols as int);
        assert(is_block(x@, luma@, stride as int, r as int, c as int));
        assert(call_ensures(*transform, (x,), t));
        assert(is_coefficients(*transform, luma@, stride as int, r as int, c as int, t));
        assert forall|b: int| 0 <= b < longer.len() implies is_coefficients(
            *transform,
            luma@,
            stride as int,
            b / (cols as int),
            b % (cols as int),
            #[trigger] longer[b],
        ) by {
            if b < n {
                assert(longer[b] == a[b]);
            }
        }
        assert(are_coefficients(*transform, luma@, stride as int, cols as int, longer));
        assert(bands_fit(longer));
    }
    let mut k: usize = 1;
    while k < 16
        invariant
            1 <= k <= 16,
            energy@[0] == 0,
            longer == a.push(t),
            n == a.len(),
            bands_fit(longer),
            forall|i: int| 0 <= i < 64 ==> -0x4000_0000 < #[trigger] t@[i] < 0x4000_0000,
            forall|m: int|
                1 <= m < 16 ==> #[trigger] energy@[m] == if m < k {
                    energy_of(longer, m)
                } else {
                    energy_of(a, m)
                },
        decreases 16 - k,
    {
        let e: u64 = block_energy(&t, k);
        proof {
            lemma_more_terms(a, t, k as int, n);
            let f = band_terms(longer, k as int);
            assert(f(n) == e);
            assert(total(f, n + 1) == total(f, n) + f(n));
            assert(energy_of(longer, k as int) <= u64::MAX);
            assert(energy@[k as int] == energy_of(a, k as int));
        }
        energy[k] = energy[k] + e;
        k = k + 1;
    }
    Ghost(t)
}

/// Measures the horizontal detail of a picture: a transform along the rows of
/// blocks of sixteen by four samples, and the energy of every band but the
/// first. Blocks that reach the last row or column are left out.
pub fn analyze_hor_freq<F: Fn([i32; 64]) -> [i32; 64]>(
    luma: &[u8],
    stride: usize,
    width: usize,
    height: usize,
    transform: &F,
) -> (r: HorFreq)
    requires
        is_transform(*transform),
        blocks_along(height as int, 4) > 0 && blocks_along(width as int, 16) > 0 ==> (4 * blocks_along(
            height as int,
            4,
        ) - 1) * stride + 16 * blocks_along(width as int, 16) <= luma@.len(),
        blocks_along(height as int, 4) * blocks_along(width as int, 16) <= u64::MAX,
        energies_fit(
            *transform,
            luma@,
            stride as int,
            blocks_along(height as int, 4),
            blocks_along(width as int, 16),
        ),
    ensures
        r.blocks == blocks_along(height as int, 4) * blocks_along(width as int, 16),
        r.energy@[0] == 0,
        exists|a: Seq<[i32; 64]>|
            {
                &&& #[trigger] are_coefficients(
                    *transform,
                    luma@,
                    stride as int,
                    blocks_along(width as int, 16),
                    a,
                )
                &&& a.len() == r.blocks
                &&& forall|k: int| 1 <= k < 16 ==> #[trigger] r.energy@[k] == energy_of(a, k)
            },
{
    let rows: usize = if height == 0 {
        0
    } else {
        (height - 1) / 4
    };
    let cols: usize = if width == 0 {
        0
    } else {
        (width - 1) / 16
    };
    let mut energy: [u64; 16] = [0; 16];
    let mut blocks: u64 = 0;
    let ghost mut a: Seq<[i32; 64]> = Seq::empty();
    let mut i: usize = 0;
    proof {
        assert(0 * (cols as int) == 0) by (nonlinear_arith);
        lemma_mul_nonnegative(rows as int, cols as int);
    }
    while i < rows
        invariant
            i <= rows,
            is_transform(*transform),
            rows == blocks_along(height as int, 4),
            cols == blocks_along(width as int, 16),
            rows > 0 && cols > 0 ==> (4 * rows - 1) * stride + 16 * cols <= luma@.len(),
            rows * cols <= u64::MAX,
            blocks == i * cols,
            a.len() == i * cols,
            are_coefficients(*transform, luma@, stride as int, cols as int, a),
            energies_fit(*transform, luma@, stride as int, rows as int, cols as int),
            energy@[0] == 0,
            forall|k: int| 1 <= k < 16 ==> #[trigger] energy@[k] == energy_of(a, k),
        decreases rows - i,
    {
        let mut j: usize = 0;
        while j < cols
            invariant
                i < rows,
                j <= cols,
                is_transform(*transform),
                rows == blocks_along(height as int, 4),
                cols == blocks_along(width as int, 16),
                rows > 0 && cols > 0 ==> (4 * rows - 1) * stride + 16 * cols <= luma@.len(),
                rows * cols <= u64::MAX,
                blocks == i * cols + j,
                a.len() == i * cols + j,
                are_coefficients(*transform, luma@, stride as int, cols as int, a),
                energies_fit(*transform, luma@, stride as int, rows as int, cols as int),
                energy@[0] == 0,
                forall|k: int| 1 <= k < 16 ==> #[trigger] energy@[k] == energy_of(a, k),
            decreases cols - j,
        {
            proof {
                lemma_mul_inequality(4 * i + 3, 4 * rows - 1, stride as int);
                lemma_raster_bounds(i as int, j as int, cols as int, rows as int);
                lemma_mul_is_commutative(rows as int, cols as int);
            }
            let t: Ghost<[i32; 64]> = add_block(&mut energy, luma, stride, i, j, rows, cols, transform, Ghost(a));
            proof {
                a = a.push(t@);
            }
            blocks = blocks + 1;
            j = j + 1;
        }
        proof {
            lemma_next_row(i as int, cols as int);
        }
        i = i + 1;
    }
    assert(are_coefficients(*transform, luma@, stride as int, cols as int, a));
    HorFreq { energy, blocks }
}

} // verus!
