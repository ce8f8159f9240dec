//! The samples of a searched block: what it differs by from a prediction, what
//! that costs, and what is reconstructed of it.

use vstd::arithmetic::mul::{lemma_mul_inequality, lemma_mul_is_commutative, lemma_mul_nonnegative};
use vstd::arithmetic::power2::lemma2_to64;
use vstd::prelude::*;

use crate::arith::{abs_int, clamp_int, lemma_raster_bounds, lemma_raster_split, lemma_total_bounds, max_int, total};
use crate::quant::{
    entry_of, eob_of, lemma_level_fits, level_of, quantized_block, quantizer_inputs, weight_at, weighted_step, Kernel,
    QuantTable,
};
use crate::tpl::dispenser::{at, TplBlock};
use crate::tpl::search::{
    dc_neighbors, error_at, get_neighbor_samples_dc, get_quantize_error, level_bits, rate_estimator,
    update_neighbor_samples_open_loop, NeighborPlan,
};

verus! {

/// A luma plane.
#[derive(Debug, Clone, Copy)]
pub struct TplPic<'a> {
    pub y: &'a [u8],
    pub y_stride: usize,
    pub width: u32,
    pub height: u32,
    /// Size of the allocation.
    pub max_width: u32,
    pub max_height: u32,
    /// Index of the first sample of the picture.
    pub origin: usize,
}

/// A luma plane that is written.
#[derive(Debug)]
pub struct TplPicMut {
    pub y: Vec<u8>,
    pub y_stride: usize,
    pub width: u32,
    pub height: u32,
    pub border: usize,
    /// Index of the first sample of the picture.
    pub origin: usize,
}

/// Rows and columns of a plane in its buffer.
pub struct PlaneShape {
    pub stride: int,
    pub origin: int,
}

impl PlaneShape {
    /// Index of the first sample of a block.
    pub open spec fn start(self, b: TplBlock) -> int {
        self.origin + b.y * self.stride + b.x
    }

    /// A buffer of `len` samples holds a block.
    pub open spec fn holds(self, b: TplBlock, len: int) -> bool {
        self.start(b) + (b.size - 1) * self.stride + b.size <= len
    }
}

impl<'a> TplPic<'a> {
    /// Rows and columns of the plane.
    pub open spec fn shape(self) -> PlaneShape {
        PlaneShape { stride: self.y_stride as int, origin: self.origin as int }
    }
}

impl TplPicMut {
    /// The plane is another's but for its samples.
    pub open spec fn same_frame(self, other: TplPicMut) -> bool {
        &&& self.y@.len() == other.y@.len()
        &&& self.y_stride == other.y_stride
        &&& self.width == other.width
        &&& self.height == other.height
        &&& self.border == other.border
        &&& self.origin == other.origin
    }

    /// Rows and columns of the plane.
    pub open spec fn shape(self) -> PlaneShape {
        PlaneShape { stride: self.y_stride as int, origin: self.origin as int }
    }
}

/// Sizes of the blocks that are searched.
pub open spec fn block_side(size: int) -> bool {
    size == 16 || size == 32 || size == 64
}

/// Distance of the rows that are transformed.
pub open spec fn row_step(subsample_tx: int) -> int {
    if subsample_tx == 2 {
        4
    } else if subsample_tx == 1 {
        2
    } else {
        1
    }
}

/// Rows to the next one that is transformed.
pub fn tpl_row_step(subsample_tx: u8) -> (r: usize)
    requires
        subsample_tx <= 2,
    ensures
        r == row_step(subsample_tx as int),
{
    if subsample_tx == 2 {
        4
    } else if subsample_tx == 1 {
        2
    } else {
        1
    }
}

/// Samples of a block that are transformed.
pub open spec fn kept_count(size: int, step: int) -> int {
    size * (size / step)
}

pub proof fn lemma_kept_index(size: int, step: int, i: int)
    requires
        block_side(size),
        step == 1 || step == 2 || step == 4,
        0 <= i < kept_count(size, step),
    ensures
        0 <= i / size < size / step,
        0 <= (i / size) * step < size,
        0 <= i % size < size,
        0 <= at(0, size, (i / size) * step, i % size) < size * size,
{
    lemma_raster_split(i, size, size / step);
    let r = (i / size) * step;
    lemma_mul_inequality(i / size, size / step - 1, step);
    assert((size / step - 1) * step <= size - step) by {
        if step == 1 {
        } else if step == 2 {
        } else {
        }
    }
    lemma_mul_nonnegative(i / size, step);
    lemma_raster_bounds(r, i % size, size, size);
}

proof fn lemma_inside(o: int, stride: int, size: int, r: int, c: int, len: int)
    requires
        0 <= o,
        0 <= stride,
        0 <= r < size,
        0 <= c < size,
        o + (size - 1) * stride + size <= len,
    ensures
        0 <= at(o, stride, r, c) < len,
        0 <= r * stride,
{
    lemma_mul_inequality(r, size - 1, stride);
    lemma_mul_nonnegative(r, stride);
}

pub proof fn lemma_side_squares(size: int)
    requires
        block_side(size),
    ensures
        size * size == 256 || size * size == 1024 || size * size == 4096,
{
    assert(size * size == 256 || size * size == 1024 || size * size == 4096) by (nonlinear_arith)
        requires
            size == 16 || size == 32 || size == 64,
    ;
}

pub proof fn lemma_kept_count(size: int, step: int)
    requires
        block_side(size),
        step == 1 || step == 2 || step == 4,
    ensures
        0 < kept_count(size, step) <= size * size <= 4096,
{
    lemma_side_squares(size);
    if size == 16 {
    } else if size == 32 {
    } else {
    }
    assert(kept_count(size, step) == size * (size / step));
    if step == 1 {
    } else if step == 2 {
        assert(size / step == 8 || size / step == 16 || size / step == 32);
    } else {
        assert(size / step == 4 || size / step == 8 || size / step == 16);
    }
}

/// What a block differs by from its prediction, in the rows that are
/// transformed.
pub open spec fn residual(src: Seq<u8>, o: int, stride: int, pred: Seq<u8>, size: int, step: int) -> Seq<i16> {
    Seq::new(
        kept_count(size, step) as nat,
        |i: int|
            (src[at(o, stride, (i / size) * step, i % size)] - pred[at(0, size, (i / size) * step, i % size)]) as i16,
    )
}

/// Subtracts a prediction from the rows of a block that are transformed.
pub fn subtract_block(src: &[u8], o: usize, stride: usize, pred: &[u8], size: usize, step: usize) -> (r: Vec<i16>)
    requires
        block_side(size as int),
        step == 1 || step == 2 || step == 4,
        o + (size - 1) * stride + size <= src@.len(),
        pred@.len() == size * size,
    ensures
        r@ == residual(src@, o as int, stride as int, pred@, size as int, step as int),
{
    let ghost goal = residual(src@, o as int, stride as int, pred@, size as int, step as int);
    proof {
        lemma_side_squares(size as int);
        lemma_mul_inequality((size / step) as int, size as int, size as int);
        lemma_mul_is_commutative(size as int, (size / step) as int);
    }
    let len: usize = src.len();
    let n: usize = size * (size / step);
    let mut r: Vec<i16> = Vec::new();
    let mut i: usize = 0;
    while i < n
        invariant
            i <= n,
            n == kept_count(size as int, step as int),
            block_side(size as int),
            step == 1 || step == 2 || step == 4,
            len == src@.len(),
            o + (size - 1) * stride + size <= len,
            pred@.len() == size * size,
            goal == residual(src@, o as int, stride as int, pred@, size as int, step as int),
            r@.len() == i,
            forall|k: int| 0 <= k < i ==> #[trigger] r@[k] == goal[k],
        decreases n - i,
    {
        proof {
            lemma_kept_index(size as int, step as int, i as int);
            lemma_inside(
                o as int,
                stride as int,
                size as int,
                (i as int / size as int) * step,
                i as int % size as int,
                len as int,
            );
            lemma_mul_nonnegative((i as int / size as int) * step, size as int);
        }
        let row: usize = (i / size) * step;
        let col: usize = i % size;
        let d: i16 = src[o + row * stride + col] as i16 - pred[row * size + col] as i16;
        r.push(d);
        i = i + 1;
    }
    assert(r@ =~= goal);
    r
}

/// Gap between a sample of a block and its prediction.
pub open spec fn gap_at(src: Seq<u8>, o: int, stride: int, pred: Seq<u8>, size: int) -> spec_fn(int) -> int {
    |i: int| abs_int(src[at(o, stride, i / size, i % size)] - pred[i])
}

/// Sum of the gaps between a block and its prediction.
pub fn block_sad(src: &[u8], o: usize, stride: usize, pred: &[u8], size: usize) -> (r: i64)
    requires
        block_side(size as int),
        o + (size - 1) * stride + size <= src@.len(),
        pred@.len() == size * size,
    ensures
        r == total(gap_at(src@, o as int, stride as int, pred@, size as int), size * size),
        0 <= r <= 255 * 4096,
{
    let ghost f = gap_at(src@, o as int, stride as int, pred@, size as int);
    proof {
        lemma_side_squares(size as int);
    }
    let len: usize = src.len();
    let n: usize = size * size;
    let mut sum: i64 = 0;
    let mut i: usize = 0;
    while i < n
        invariant
            i <= n <= 4096,
            n == size * size,
            block_side(size as int),
            len == src@.len(),
            o + (size - 1) * stride + size <= len,
            pred@.len() == n,
            f == gap_at(src@, o as int, stride as int, pred@, size as int),
            sum == total(f, i as int),
            0 <= sum <= 255 * i,
        decreases n - i,
    {
        proof {
            lemma_raster_split(i as int, size as int, size as int);
            lemma_inside(o as int, stride as int, size as int, i as int / size as int, i as int % size as int, len as int);
        }
        let row: usize = i / size;
        let d: i64 = src[o + row * stride + i % size] as i64 - pred[i] as i64;
        assert(f(i as int) == abs_int(d as int));
        sum = sum + if d < 0 {
            -d
        } else {
            d
        };
        i = i + 1;
    }
    sum
}

/// Magnitude of a coefficient.
pub open spec fn magnitude_at(coeff: Seq<i32>) -> spec_fn(int) -> int {
    |i: int| abs_int(coeff[i] as int)
}

/// Coefficients of the transforms stay below this bound.
pub const TX_LIMIT: i32 = 0x7_ffff;

/// Coefficients of a block.
pub open spec fn coefficients_fit(coeff: Seq<i32>, n: int) -> bool {
    &&& coeff.len() == n
    &&& forall|i: int| 0 <= i < n ==> -TX_LIMIT <= #[trigger] coeff[i] <= TX_LIMIT
}

/// Sum of the magnitudes of the coefficients of a block.
pub fn block_satd(coeff: &[i32]) -> (r: i64)
    requires
        coefficients_fit(coeff@, coeff@.len() as int),
        coeff@.len() <= 4096,
    ensures
        r == total(magnitude_at(coeff@), coeff@.len() as int),
        0 <= r <= 0x7fff_ffff,
{
    let ghost f = magnitude_at(coeff@);
    let mut sum: i64 = 0;
    let mut i: usize = 0;
    while i < coeff.len()
        invariant
            i <= coeff@.len() <= 4096,
            coefficients_fit(coeff@, coeff@.len() as int),
            f == magnitude_at(coeff@),
            sum == total(f, i as int),
            0 <= sum <= TX_LIMIT * i,
        decreases coeff@.len() - i,
    {
        let v: i64 = coeff[i] as i64;
        assert(f(i as int) == abs_int(v as int));
        sum = sum + if v < 0 {
            -v
        } else {
            v
        };
        i = i + 1;
    }
    sum
}

/// The samples of a block, row by row.
pub open spec fn block_samples(y: Seq<u8>, o: int, stride: int, size: int) -> Seq<u8> {
    Seq::new((size * size) as nat, |i: int| y[at(o, stride, i / size, i % size)])
}

/// Takes a block out of a plane.
pub fn take_block(y: &[u8], o: usize, stride: usize, size: usize) -> (r: Vec<u8>)
    requires
        block_side(size as int),
        o + (size - 1) * stride + size <= y@.len(),
    ensures
        r@ == block_samples(y@, o as int, stride as int, size as int),
{
    let ghost goal = block_samples(y@, o as int, stride as int, size as int);
    proof {
        lemma_side_squares(size as int);
    }
    let len: usize = y.len();
    let n: usize = size * size;
    let mut r: Vec<u8> = Vec::new();
    let mut i: usize = 0;
    while i < n
        invariant
            i <= n,
            n == size * size,
            block_side(size as int),
            len == y@.len(),
            o + (size - 1) * stride + size <= len,
            goal == block_samples(y@, o as int, stride as int, size as int),
            r@.len() == i,
            forall|k: int| 0 <= k < i ==> #[trigger] r@[k] == goal[k],
        decreases n - i,
    {
        proof {
            lemma_raster_split(i as int, size as int, size as int);
            lemma_inside(o as int, stride as int, size as int, i as int / size as int, i as int % size as int, len as int);
        }
        let row: usize = i / size;
        r.push(y[o + row * stride + i % size]);
        i = i + 1;
    }
    assert(r@ =~= goal);
    r
}

/// A prediction with its residual added: every row that was transformed gets
/// its own, and the rows behind it repeat it.
pub open spec fn with_residual(pred: Seq<u8>, res: Seq<i32>, size: int, step: int) -> Seq<u8> {
    Seq::new(
        (size * size) as nat,
        |i: int|
            clamp_int(
                pred[at(0, size, (i / size) / step * step, i % size)] + res[at(0, size, (i / size) / step, i % size)],
                0,
                255,
            ) as u8,
    )
}

proof fn lemma_lead(size: int, step: int, i: int)
    requires
        block_side(size),
        step == 1 || step == 2 || step == 4,
        0 <= i < size * size,
    ensures
        0 <= i / size < size,
        0 <= i % size < size,
        0 <= (i / size) / step < size / step,
        0 <= (i / size) / step * step <= i / size,
        0 <= (i / size) / step * step * size,
        0 <= (i / size) / step * size,
        at(0, size, (i / size) / step * step, i % size) < size * size,
        at(0, size, (i / size) / step, i % size) < kept_count(size, step),
{
    lemma_raster_split(i, size, size);
    let row = i / size;
    let lead = row / step;
    if step == 1 {
        assert(lead == row && size / step == size);
    } else if step == 2 {
        assert(size / step == size / 2);
    } else {
        assert(size / step == size / 4);
    }
    lemma_raster_bounds(lead, i % size, size, size / step);
    lemma_raster_bounds(lead * step, i % size, size, size);
    lemma_mul_nonnegative(lead * step, size);
    lemma_mul_nonnegative(lead, size);
    lemma_mul_is_commutative(size, size / step);
}

/// Sample `i` of a prediction with its residual added.
fn added_sample(pred: &[u8], res: &[i32], size: usize, step: usize, i: usize) -> (r: u8)
    requires
        block_side(size as int),
        step == 1 || step == 2 || step == 4,
        pred@.len() == size * size,
        i < size * size,
        res@.len() == kept_count(size as int, step as int),
        forall|k: int| 0 <= k < res@.len() ==> -0x3fff_ffff <= #[trigger] res@[k] <= 0x3fff_ffff,
    ensures
        r == with_residual(pred@, res@, size as int, step as int)[i as int],
{
    let row: usize = i / size;
    let col: usize = i % size;
    let lead: usize = row / step;
    proof {
        lemma_lead(size as int, step as int, i as int);
    }
    let v: i32 = pred[lead * step * size + col] as i32 + res[lead * size + col];
    if v < 0 {
        0
    } else if v > 255 {
        255
    } else {
        v as u8
    }
}

/// Adds a residual to a prediction.
pub fn add_residual(pred: &[u8], res: &[i32], size: usize, step: usize) -> (r: Vec<u8>)
    requires
        block_side(size as int),
        step == 1 || step == 2 || step == 4,
        pred@.len() == size * size,
        res@.len() == kept_count(size as int, step as int),
        forall|i: int| 0 <= i < res@.len() ==> -0x3fff_ffff <= #[trigger] res@[i] <= 0x3fff_ffff,
    ensures
        r@ == with_residual(pred@, res@, size as int, step as int),
{
    let ghost goal = with_residual(pred@, res@, size as int, step as int);
    proof {
        lemma_side_squares(size as int);
    }
    let n: usize = size * size;
    let mut r: Vec<u8> = Vec::new();
    let mut i: usize = 0;
    while i < n
        invariant
            i <= n,
            n == size * size,
            block_side(size as int),
            step == 1 || step == 2 || step == 4,
            pred@.len() == n,
            res@.len() == kept_count(size as int, step as int),
            forall|k: int| 0 <= k < res@.len() ==> -0x3fff_ffff <= #[trigger] res@[k] <= 0x3fff_ffff,
            goal == with_residual(pred@, res@, size as int, step as int),
            r@.len() == i,
            forall|k: int| 0 <= k < i ==> #[trigger] r@[k] == goal[k],
        decreases n - i,
    {
        r.push(added_sample(pred, res, size, step, i));
        i = i + 1;
    }
    assert(r@ =~= goal);
    r
}

/// A quantized block and what it costs.
#[derive(Debug)]
pub struct TplMeasure {
    /// Levels and their reconstructions.
    pub qcoeff: Vec<i32>,
    pub dqcoeff: Vec<i32>,
    pub eob: u16,
    /// Squared error, at least one.
    pub error: i64,
    /// Estimated rate, in 1/512 bit.
    pub rate: i64,
}

/// What quantizing a block with a scan leaves, and costs.
pub open spec fn is_measure(
    m: TplMeasure,
    coeff: Seq<i32>,
    quant: QuantTable,
    scan: Seq<u16>,
    is_tx_32x32: bool,
    compute_rate: bool,
) -> bool {
    let zeros = Seq::new(coeff.len(), |i: int| 0i32);
    &&& quantized_block(
        (Kernel { dead_zone: false, saturate: true }),
        coeff,
        |rc: int| true,
        quant,
        0,
        None,
        None,
        zeros,
        zeros,
        m.qcoeff@,
        m.dqcoeff@,
    )
    &&& m.eob == eob_of(scan, m.qcoeff@)
    &&& m.error == max_int(
        total(error_at(coeff, m.dqcoeff@), coeff.len() as int) / (if is_tx_32x32 {
            1int
        } else {
            4
        }),
        1,
    )
    &&& m.rate == if compute_rate {
        512 * (m.eob + 1 + total(level_bits(m.qcoeff@, scan), m.eob as int))
    } else {
        0
    }
}

/// Errors and rates stay far from the limits of 64 bits.
pub open spec fn moderate(x: i64) -> bool {
    -0x1ff_ffff_ffff_ffff <= x <= 0x1ff_ffff_ffff_ffff
}

proof fn lemma_eob_bound(scan: Seq<u16>, q: Seq<i32>)
    ensures
        0 <= eob_of(scan, q) <= scan.len(),
    decreases scan.len(),
{
    if scan.len() > 0 && q[scan.last() as int] == 0 {
        lemma_eob_bound(scan.drop_last(), q);
    }
}

/// Quantizes the coefficients of a block and measures the outcome.
pub fn tpl_measure(
    coeff: &[i32],
    quant: &QuantTable,
    scan: &[u16],
    is_tx_32x32: bool,
    compute_rate: bool,
) -> (m: TplMeasure)
    requires
        quantizer_inputs(coeff@, scan@, *quant, 0, coeff@.len() as int, coeff@.len() as int),
        coeff@.len() <= 4096,
        scan@.len() <= 4096,
    ensures
        is_measure(m, coeff@, *quant, scan@, is_tx_32x32, compute_rate),
        m.qcoeff@.len() == coeff@.len(),
        m.dqcoeff@.len() == coeff@.len(),
        moderate(m.error),
        moderate(m.rate),
{
    let n: usize = coeff.len();
    let mut qcoeff: Vec<i32> = vec![0; n];
    let mut dqcoeff: Vec<i32> = vec![0; n];
    let ghost zeros = Seq::new(coeff@.len(), |i: int| 0i32);
    assert(qcoeff@ =~= zeros && dqcoeff@ =~= zeros);
    let (mut eob, mut error, mut sse): (u16, i64, i64) = (0, 1, 1);
    get_quantize_error(
        quant,
        coeff,
        qcoeff.as_mut_slice(),
        dqcoeff.as_mut_slice(),
        scan,
        n,
        is_tx_32x32,
        &mut eob,
        &mut error,
        &mut sse,
    );
    proof {
        let k = Kernel { dead_zone: false, saturate: true };
        let f = error_at(coeff@, dqcoeff@);
        assert forall|i: int| 0 <= i < n implies 0 <= #[trigger] f(i) <= 0x41_0000 * 0x41_0000 by {
            lemma_level_fits(k, *quant, 0, None, i, coeff@[i] as int);
            let level = level_of(k, *quant, 0, None, i, coeff@[i] as int);
            assert(weight_at(None, i) is None);
            assert(abs_int(qcoeff@[i] as int) == level);
            let step = weighted_step(quant.dequant@, i, 32);
            assert(quant.dequant[entry_of(i)] >= 0);
            lemma_mul_nonnegative(level, step);
            lemma2_to64();
            let d = coeff@[i] - dqcoeff@[i];
            assert(-0x41_0000 <= d <= 0x41_0000);
            assert(0 <= d * d <= 0x41_0000 * 0x41_0000) by (nonlinear_arith)
                requires
                    -0x41_0000 <= d <= 0x41_0000,
            ;
        }
        lemma_total_bounds(f, n as int, 0, 0x41_0000int * 0x41_0000int);
        lemma_eob_bound(scan@, qcoeff@);
        assert forall|i: int| 0 <= i < qcoeff@.len() implies #[trigger] qcoeff@[i] > i32::MIN by {
            lemma_level_fits(k, *quant, 0, None, i, coeff@[i] as int);
            assert(weight_at(None, i) is None);
        }
    }
    let rate: i64 = if compute_rate {
        rate_estimator(qcoeff.as_slice(), eob as usize, scan) as i64
    } else {
        0
    };
    TplMeasure { qcoeff, dqcoeff, eob, error, rate }
}

/// Neighbours per side, the corner among them, that a block may read.
pub const TPL_NEIGH_SZ: usize = 129;

/// A block lies inside a picture with all of its neighbours.
pub open spec fn interior(b: TplBlock, width: int, height: int) -> bool {
    b.x > 0 && b.y > 0 && b.x + b.size <= width && b.y + b.size <= height
}

/// How the neighbours of a block are built.
pub open spec fn neighbor_plan(stride: int, width: int, height: int, b: TplBlock) -> NeighborPlan {
    NeighborPlan {
        extend: true,
        read_top: true,
        stride,
        width,
        height,
        x: b.x as int,
        y: b.y as int,
        bw: b.size as int,
        bh: b.size as int,
    }
}

/// The neighbours of a block in a plane; where only the flat mode is tried, a
/// block inside the picture reads no more than its own.
pub open spec fn are_neighbours(
    y: Seq<u8>,
    g: PlaneShape,
    width: int,
    height: int,
    b: TplBlock,
    flat_only: bool,
    above: Seq<u8>,
    left: Seq<u8>,
) -> bool {
    let zeros = Seq::new(TPL_NEIGH_SZ as nat, |i: int| 0u8);
    &&& above.len() == TPL_NEIGH_SZ
    &&& left.len() == TPL_NEIGH_SZ
    &&& if flat_only && interior(b, width, height) {
        &&& dc_neighbors(y, g.stride, g.start(b), b.size as int, above, left)
        &&& forall|k: int| b.size < k < TPL_NEIGH_SZ ==> #[trigger] above[k] == 0
        &&& forall|k: int| b.size < k < TPL_NEIGH_SZ ==> #[trigger] left[k] == 0
    } else {
        let p = neighbor_plan(g.stride, width, height, b);
        let buf = y.subrange(g.origin, y.len() as int);
        &&& forall|k: int| 0 <= k < TPL_NEIGH_SZ ==> #[trigger] above[k] == p.above_at(buf, zeros, zeros, k)
        &&& forall|k: int| 0 <= k < TPL_NEIGH_SZ ==> #[trigger] left[k] == p.left_at(buf, zeros, k)
    }
}

/// The neighbours of a block can be read.
pub open spec fn neighbours_fit(len: int, g: PlaneShape, width: int, height: int, b: TplBlock) -> bool {
    &&& 0 <= g.origin <= len
    &&& b.x < width <= 0x3fff_ffff
    &&& b.y < height <= 0x3fff_ffff
    &&& g.holds(b, len)
    &&& neighbor_plan(g.stride, width, height, b).readable(len - g.origin)
}

/// Collects the neighbours of a block.
pub fn tpl_neighbours(
    y: &[u8],
    stride: usize,
    origin: usize,
    width: u32,
    height: u32,
    b: TplBlock,
    flat_only: bool,
) -> (r: (Vec<u8>, Vec<u8>))
    requires
        block_side(b.size as int),
        stride > 0,
        neighbours_fit(
            y@.len() as int,
            (PlaneShape { stride: stride as int, origin: origin as int }),
            width as int,
            height as int,
            b,
        ),
    ensures
        are_neighbours(
            y@,
            (PlaneShape { stride: stride as int, origin: origin as int }),
            width as int,
            height as int,
            b,
            flat_only,
            r.0@,
            r.1@,
        ),
{
    let ghost g = PlaneShape { stride: stride as int, origin: origin as int };
    let ghost zeros = Seq::new(TPL_NEIGH_SZ as nat, |i: int| 0u8);
    let mut above: Vec<u8> = vec![0; TPL_NEIGH_SZ];
    let mut left: Vec<u8> = vec![0; TPL_NEIGH_SZ];
    assert(above@ =~= zeros && left@ =~= zeros);
    let size: usize = b.size as usize;
    let inner: bool = b.x > 0 && b.y > 0 && b.x as u64 + b.size as u64 <= width as u64 && b.y as u64 + b.size as u64
        <= height as u64;
    let len: usize = y.len();
    proof {
        lemma_mul_nonnegative(b.y as int, stride as int);
        lemma_mul_nonnegative(size - 1, stride as int);
    }
    if flat_only && inner {
        assert(b.y * stride >= stride) by {
            lemma_mul_inequality(1, b.y as int, stride as int);
        }
        assert(origin + b.y * stride + b.x <= len);
        let o: usize = origin + b.y as usize * stride + b.x as usize;
        get_neighbor_samples_dc(y, stride, o, above.as_mut_slice(), left.as_mut_slice(), size);
    } else {
        let buf: &[u8] = vstd::slice::slice_subrange(y, origin, len);
        update_neighbor_samples_open_loop(
            true,
            true,
            buf,
            stride,
            width,
            height,
            b.x,
            b.y,
            size,
            size,
            above.as_mut_slice(),
            left.as_mut_slice(),
        );
    }
    (above, left)
}

} // verus!
