//! The squared error that a pair of projection weights leaves in a unit.

use vstd::arithmetic::mul::{lemma_mul_is_commutative, lemma_mul_nonnegative};
use vstd::arithmetic::power2::lemma2_to64;
use vstd::prelude::*;

use crate::arith::{shr_i32, total};
use crate::pixel::Pixel;
use crate::raster::{block_of, inside, lemma_next_row, lemma_pos, lemma_total_grows, pos};
use crate::sgr_search::{decode_xq, decodes, weight0, weight1, SgrParamsType};

verus! {

/// The samples of a unit, row by row: the source, what was decoded, and the
/// two filtered versions.
pub struct ProjUnit {
    pub src: Seq<int>,
    pub dat: Seq<int>,
    pub flt0: Seq<int>,
    pub flt1: Seq<int>,
}

/// Filtered samples of a unit, row by row.
pub open spec fn filtered_of(buf: Seq<i32>, stride: int, w: int, h: int) -> Seq<int> {
    Seq::new((w * h) as nat, |i: int| buf[pos(0, stride, w, i)] as int)
}

/// What the weights add to a sample, in units of `1/2048`. A filter that is
/// off adds nothing.
pub open spec fn correction(d: int, f0: int, f1: int, w0: int, w1: int, params: SgrParamsType) -> int {
    (if params.first() {
        w0 * (f0 - 16 * d)
    } else {
        0
    }) + (if params.second() {
        w1 * (f1 - 16 * d)
    } else {
        0
    })
}

/// Error of one corrected sample: the correction is rounded to the nearest
/// integer, halves upward.
pub open spec fn sample_error(s: int, d: int, f0: int, f1: int, w0: int, w1: int, params: SgrParamsType) -> int {
    d + (correction(d, f0, f1, w0, w1, params) + 1024) / 2048 - s
}

/// A number fits 32 bits.
pub open spec fn narrow(x: int) -> bool {
    i32::MIN <= x <= i32::MAX
}

/// The error of a sample is computed without overflow. Narrow samples carry
/// the sample itself through the sum, wide ones do not.
pub open spec fn sample_fits(wide: bool, d: int, f0: int, f1: int, w0: int, w1: int, params: SgrParamsType) -> bool {
    let base = if wide {
        1024
    } else {
        2048 * d
    };
    let a = w0 * (f0 - 16 * d);
    let b = w1 * (f1 - 16 * d);
    &&& params.first() ==> narrow(f0 - 16 * d) && narrow(a)
    &&& params.second() ==> narrow(f1 - 16 * d) && narrow(b)
    &&& params.first() && params.second() ==> (if wide {
        narrow(1024 + a)
    } else {
        narrow(a + b)
    })
    &&& params.first() || params.second() ==> narrow(base + correction(d, f0, f1, w0, w1, params)) && narrow(
        2048 * (if wide {
            0
        } else {
            d
        }) + correction(d, f0, f1, w0, w1, params) + 1024,
    )
}

/// Squared errors of a unit.
pub open spec fn squares(unit: ProjUnit, w0: int, w1: int, params: SgrParamsType) -> spec_fn(int) -> int {
    |i: int|
        sample_error(unit.src[i], unit.dat[i], unit.flt0[i], unit.flt1[i], w0, w1, params) * sample_error(
            unit.src[i],
            unit.dat[i],
            unit.flt0[i],
            unit.flt1[i],
            w0,
            w1,
            params,
        )
}

/// Squared error of a unit under a pair of projection weights.
pub open spec fn unit_error(unit: ProjUnit, w0: int, w1: int, params: SgrParamsType) -> int {
    total(squares(unit, w0, w1, params), unit.src.len() as int)
}

/// The error of a unit is computed without overflow.
pub open spec fn error_fits(wide: bool, unit: ProjUnit, w0: int, w1: int, params: SgrParamsType) -> bool {
    &&& forall|i: int|
        0 <= i < unit.src.len() ==> #[trigger] sample_fits(
            wide,
            unit.dat[i],
            unit.flt0[i],
            unit.flt1[i],
            w0,
            w1,
            params,
        )
    &&& unit_error(unit, w0, w1, params) <= i64::MAX
}

fn narrow_error(s: i32, d: i32, f0: i32, f1: i32, xq: &[i32; 2], params: &SgrParamsType) -> (e: i32)
    requires
        0 <= s < 0x1_0000,
        0 <= d < 0x1_0000,
        sample_fits(false, d as int, f0 as int, f1 as int, xq[0] as int, xq[1] as int, *params),
    ensures
        e == sample_error(s as int, d as int, f0 as int, f1 as int, xq[0] as int, xq[1] as int, *params),
{
    let u: i32 = d * 16;
    let v: i32 = u * 128;
    if params.r[0] > 0 && params.r[1] > 0 {
        let v: i32 = v + (xq[0] * (f0 - u) + xq[1] * (f1 - u));
        proof {
            lemma2_to64();
        }
        shr_i32(v + 1024, 11) - s
    } else if params.r[0] > 0 {
        let v: i32 = v + xq[0] * (f0 - u);
        proof {
            lemma2_to64();
        }
        shr_i32(v + 1024, 11) - s
    } else if params.r[1] > 0 {
        let v: i32 = v + xq[1] * (f1 - u);
        proof {
            lemma2_to64();
        }
        shr_i32(v + 1024, 11) - s
    } else {
        d - s
    }
}

fn wide_error(s: i32, d: i32, f0: i32, f1: i32, xq: &[i32; 2], params: &SgrParamsType) -> (e: i32)
    requires
        0 <= s < 0x1_0000,
        0 <= d < 0x1_0000,
        sample_fits(true, d as int, f0 as int, f1 as int, xq[0] as int, xq[1] as int, *params),
    ensures
        e == sample_error(s as int, d as int, f0 as int, f1 as int, xq[0] as int, xq[1] as int, *params),
{
    let u: i32 = d * 16;
    if params.r[0] > 0 && params.r[1] > 0 {
        let v: i32 = 1024 + xq[0] * (f0 - u) + xq[1] * (f1 - u);
        proof {
            lemma2_to64();
        }
        shr_i32(v, 11) + d - s
    } else if params.r[0] > 0 {
        proof {
            lemma2_to64();
        }
        shr_i32(1024 + xq[0] * (f0 - u), 11) + d - s
    } else if params.r[1] > 0 {
        proof {
            lemma2_to64();
        }
        shr_i32(1024 + xq[1] * (f1 - u), 11) + d - s
    } else {
        d - s
    }
}

/// The unit of a pair of planes.
pub open spec fn unit_of<P: Pixel>(
    src: Seq<P>,
    src_origin: int,
    src_stride: int,
    dat: Seq<P>,
    dat_origin: int,
    dat_stride: int,
    flt0: Seq<i32>,
    flt0_stride: int,
    flt1: Seq<i32>,
    flt1_stride: int,
    w: int,
    h: int,
) -> ProjUnit {
    ProjUnit {
        src: block_of(src, src_origin, src_stride, w, h),
        dat: block_of(dat, dat_origin, dat_stride, w, h),
        flt0: filtered_of(flt0, flt0_stride, w, h),
        flt1: filtered_of(flt1, flt1_stride, w, h),
    }
}

/// The filtered samples of every running filter lie in their buffers.
pub open spec fn filters_inside(
    flt0: Seq<i32>,
    flt0_stride: int,
    flt1: Seq<i32>,
    flt1_stride: int,
    w: int,
    h: int,
    params: SgrParamsType,
) -> bool {
    &&& params.first() ==> inside(flt0.len() as int, 0, flt0_stride, w, h)
    &&& params.second() ==> inside(flt1.len() as int, 0, flt1_stride, w, h)
}

fn proj_error<P: Pixel>(
    wide: bool,
    src: &[P],
    src_origin: usize,
    width: usize,
    height: usize,
    src_stride: usize,
    dat: &[P],
    dat_origin: usize,
    dat_stride: usize,
    flt0: &[i32],
    flt0_stride: usize,
    flt1: &[i32],
    flt1_stride: usize,
    xq: &[i32; 2],
    params: &SgrParamsType,
) -> (err: i64)
    requires
        inside(src@.len() as int, src_origin as int, src_stride as int, width as int, height as int),
        inside(dat@.len() as int, dat_origin as int, dat_stride as int, width as int, height as int),
        filters_inside(
            flt0@,
            flt0_stride as int,
            flt1@,
            flt1_stride as int,
            width as int,
            height as int,
            *params,
        ),
        error_fits(
            wide,
            unit_of(
                src@,
                src_origin as int,
                src_stride as int,
                dat@,
                dat_origin as int,
                dat_stride as int,
                flt0@,
                flt0_stride as int,
                flt1@,
                flt1_stride as int,
                width as int,
                height as int,
            ),
            xq[0] as int,
            xq[1] as int,
            *params,
        ),
    ensures
        err == unit_error(
            unit_of(
                src@,
                src_origin as int,
                src_stride as int,
                dat@,
                dat_origin as int,
                dat_stride as int,
                flt0@,
                flt0_stride as int,
                flt1@,
                flt1_stride as int,
                width as int,
                height as int,
            ),
            xq[0] as int,
            xq[1] as int,
            *params,
        ),
{
    let ghost unit = unit_of(
        src@,
        src_origin as int,
        src_stride as int,
        dat@,
        dat_origin as int,
        dat_stride as int,
        flt0@,
        flt0_stride as int,
        flt1@,
        flt1_stride as int,
        width as int,
        height as int,
    );
    let ghost f = squares(unit, xq[0] as int, xq[1] as int, *params);
    let ghost n = width * height;
    let src_len: usize = src.len();
    let dat_len: usize = dat.len();
    let flt0_len: usize = flt0.len();
    let flt1_len: usize = flt1.len();
    let first: bool = params.r[0] > 0;
    let second: bool = params.r[1] > 0;
    let mut err: i64 = 0;
    let mut i: usize = 0;
    proof {
        assert(0 * width == 0);
        lemma_mul_nonnegative(width as int, height as int);
        assert forall|k: int| 0 <= k < n implies 0 <= #[trigger] f(k) by {
            let e = sample_error(
                unit.src[k],
                unit.dat[k],
                unit.flt0[k],
                unit.flt1[k],
                xq[0] as int,
                xq[1] as int,
                *params,
            );
            assert(0 <= e * e) by (nonlinear_arith);
        }
    }
    while i < height
        invariant
            i <= height,
            n == width * height,
            src_len == src@.len(),
            dat_len == dat@.len(),
            flt0_len == flt0@.len(),
            flt1_len == flt1@.len(),
            first == params.first(),
            second == params.second(),
            inside(src_len as int, src_origin as int, src_stride as int, width as int, height as int),
            inside(dat_len as int, dat_origin as int, dat_stride as int, width as int, height as int),
            first ==> inside(flt0_len as int, 0, flt0_stride as int, width as int, height as int),
            second ==> inside(flt1_len as int, 0, flt1_stride as int, width as int, height as int),
            unit == unit_of(
                src@,
                src_origin as int,
                src_stride as int,
                dat@,
                dat_origin as int,
                dat_stride as int,
                flt0@,
                flt0_stride as int,
                flt1@,
                flt1_stride as int,
                width as int,
                height as int,
            ),
            f == squares(unit, xq[0] as int, xq[1] as int, *params),
            error_fits(wide, unit, xq[0] as int, xq[1] as int, *params),
            forall|k: int| 0 <= k < n ==> 0 <= #[trigger] f(k),
            err == total(f, i * width),
        decreases height - i,
    {
        let mut j: usize = 0;
        while j < width
            invariant
                i < height,
                j <= width,
                n == width * height,
                src_len == src@.len(),
                dat_len == dat@.len(),
                flt0_len == flt0@.len(),
                flt1_len == flt1@.len(),
                first == params.first(),
                second == params.second(),
                inside(src_len as int, src_origin as int, src_stride as int, width as int, height as int),
                inside(dat_len as int, dat_origin as int, dat_stride as int, width as int, height as int),
                first ==> inside(flt0_len as int, 0, flt0_stride as int, width as int, height as int),
                second ==> inside(flt1_len as int, 0, flt1_stride as int, width as int, height as int),
                unit == unit_of(
                    src@,
                    src_origin as int,
                    src_stride as int,
                    dat@,
                    dat_origin as int,
                    dat_stride as int,
                    flt0@,
                    flt0_stride as int,
                    flt1@,
                    flt1_stride as int,
                    width as int,
                    height as int,
                ),
                f == squares(unit, xq[0] as int, xq[1] as int, *params),
                error_fits(wide, unit, xq[0] as int, xq[1] as int, *params),
                forall|k: int| 0 <= k < n ==> 0 <= #[trigger] f(k),
                err == total(f, i * width + j),
            decreases width - j,
        {
            let ghost k = i * width + j;
            proof {
                lemma_pos(
                    src_len as int,
                    src_origin as int,
                    src_stride as int,
                    width as int,
                    height as int,
                    i as int,
                    j as int,
                );
                lemma_pos(
                    dat_len as int,
                    dat_origin as int,
                    dat_stride as int,
                    width as int,
                    height as int,
                    i as int,
                    j as int,
                );
            }
            let s: P = src[src_origin + i * src_stride + j];
            let d: P = dat[dat_origin + i * dat_stride + j];
            let f0: i32 = if first {
                proof {
                    lemma_pos(flt0_len as int, 0, flt0_stride as int, width as int, height as int, i as int, j as int);
                }
                flt0[i * flt0_stride + j]
            } else {
                0
            };
            let f1: i32 = if second {
                proof {
                    lemma_pos(flt1_len as int, 0, flt1_stride as int, width as int, height as int, i as int, j as int);
                }
                flt1[i * flt1_stride + j]
            } else {
                0
            };
            proof {
                s.bounded();
                d.bounded();
                assert(unit.src[k] == s.val());
                assert(unit.dat[k] == d.val());
                assert(first ==> unit.flt0[k] == f0);
                assert(second ==> unit.flt1[k] == f1);
                assert(sample_fits(
                    wide,
                    unit.dat[k],
                    unit.flt0[k],
                    unit.flt1[k],
                    xq[0] as int,
                    xq[1] as int,
                    *params,
                ));
            }
            let e: i32 = if wide {
                wide_error(s.value() as i32, d.value() as i32, f0, f1, xq, params)
            } else {
                narrow_error(s.value() as i32, d.value() as i32, f0, f1, xq, params)
            };
            proof {
                assert(f(k) == e * e);
                lemma_total_grows(f, k + 1, n);
                assert(total(f, k + 1) == total(f, k) + f(k));
                assert(0 <= e * e <= 0x4000_0000_0000_0000) by (nonlinear_arith)
                    requires
                        -0x8000_0000 <= e <= 0x8000_0000,
                ;
            }
            err = err + e as i64 * e as i64;
            j = j + 1;
        }
        proof {
            lemma_next_row(i as int, width as int);
        }
        i = i + 1;
    }
    proof {
        lemma_mul_is_commutative(width as int, height as int);
    }
    err
}

/// Squared error of a unit of narrow samples under a pair of projection
/// weights.
pub fn lowbd_pixel_proj_error(
    src: &[u8],
    src_origin: usize,
    width: usize,
    height: usize,
    src_stride: usize,
    dat: &[u8],
    dat_origin: usize,
    dat_stride: usize,
    flt0: &[i32],
    flt0_stride: usize,
    flt1: &[i32],
    flt1_stride: usize,
    xq: &[i32; 2],
    params: &SgrParamsType,
) -> (err: i64)
    requires
        inside(src@.len() as int, src_origin as int, src_stride as int, width as int, height as int),
        inside(dat@.len() as int, dat_origin as int, dat_stride as int, width as int, height as int),
        filters_inside(
            flt0@,
            flt0_stride as int,
            flt1@,
            flt1_stride as int,
            width as int,
            height as int,
            *params,
        ),
        error_fits(
            false,
            unit_of(
                src@,
                src_origin as int,
                src_stride as int,
                dat@,
                dat_origin as int,
                dat_stride as int,
                flt0@,
                flt0_stride as int,
                flt1@,
                flt1_stride as int,
                width as int,
                height as int,
            ),
            xq[0] as int,
            xq[1] as int,
            *params,
        ),
    ensures
        err == unit_error(
            unit_of(
                src@,
                src_origin as int,
                src_stride as int,
                dat@,
                dat_origin as int,
                dat_stride as int,
                flt0@,
                flt0_stride as int,
                flt1@,
                flt1_stride as int,
                width as int,
                height as int,
            ),
            xq[0] as int,
            xq[1] as int,
            *params,
        ),
{
    proj_error(
        false,
        src,
        src_origin,
        width,
        height,
        src_stride,
        dat,
        dat_origin,
        dat_stride,
        flt0,
        flt0_stride,
        flt1,
        flt1_stride,
        xq,
        params,
    )
}

/// The same for wide samples.
pub fn highbd_pixel_proj_error(
    src: &[u16],
    src_origin: usize,
    width: usize,
    height: usize,
    src_stride: usize,
    dat: &[u16],
    dat_origin: usize,
    dat_stride: usize,
    flt0: &[i32],
    flt0_stride: usize,
    flt1: &[i32],
    flt1_stride: usize,
    xq: &[i32; 2],
    params: &SgrParamsType,
) -> (err: i64)
    requires
        inside(src@.len() as int, src_origin as int, src_stride as int, width as int, height as int),
        inside(dat@.len() as int, dat_origin as int, dat_stride as int, width as int, height as int),
        filters_inside(
            flt0@,
            flt0_stride as int,
            flt1@,
            flt1_stride as int,
            width as int,
            height as int,
            *params,
        ),
        error_fits(
            true,
            unit_of(
                src@,
                src_origin as int,
                src_stride as int,
                dat@,
                dat_origin as int,
                dat_stride as int,
                flt0@,
                flt0_stride as int,
                flt1@,
                flt1_stride as int,
                width as int,
                height as int,
            ),
            xq[0] as int,
            xq[1] as int,
            *params,
        ),
    ensures
        err == unit_error(
            unit_of(
                src@,
                src_origin as int,
                src_stride as int,
                dat@,
                dat_origin as int,
                dat_stride as int,
                flt0@,
                flt0_stride as int,
                flt1@,
                flt1_stride as int,
                width as int,
                height as int,
            ),
            xq[0] as int,
            xq[1] as int,
            *params,
        ),
{
    proj_error(
        true,
        src,
        src_origin,
        width,
        height,
        src_stride,
        dat,
        dat_origin,
        dat_stride,
        flt0,
        flt0_stride,
        flt1,
        flt1_stride,
        xq,
        params,
    )
}

/// Source and decoded samples of one width.
#[derive(Clone, Copy)]
#[allow(inconsistent_fields)]
pub enum ProjPlanes<'a> {
    Lowbd { src: &'a [u8], dat: &'a [u8] },
    Highbd { src: &'a [u16], dat: &'a [u16] },
}

/// Where the samples of a unit lie: in the two planes, and in the buffers of
/// the two filters, which start with the unit.
#[derive(Clone, Copy)]
pub struct ProjArgs<'a> {
    pub planes: ProjPlanes<'a>,
    pub src_origin: usize,
    pub width: usize,
    pub height: usize,
    pub src_stride: usize,
    pub dat_origin: usize,
    pub dat_stride: usize,
    pub flt0: &'a [i32],
    pub flt0_stride: usize,
    pub flt1: &'a [i32],
    pub flt1_stride: usize,
}

impl<'a> ProjArgs<'a> {
    /// The samples are wide.
    pub open spec fn wide(self) -> bool {
        self.planes is Highbd
    }

    /// The unit lies in its buffers.
    pub open spec fn inside(self, params: SgrParamsType) -> bool {
        &&& planes_inside(
            self.planes,
            self.src_origin as int,
            self.src_stride as int,
            self.dat_origin as int,
            self.dat_stride as int,
            self.width as int,
            self.height as int,
        )
        &&& filters_inside(
            self.flt0@,
            self.flt0_stride as int,
            self.flt1@,
            self.flt1_stride as int,
            self.width as int,
            self.height as int,
            params,
        )
    }

    /// The samples of the unit.
    pub open spec fn unit(self) -> ProjUnit {
        unit_in(
            self.planes,
            self.src_origin as int,
            self.src_stride as int,
            self.dat_origin as int,
            self.dat_stride as int,
            self.flt0@,
            self.flt0_stride as int,
            self.flt1@,
            self.flt1_stride as int,
            self.width as int,
            self.height as int,
        )
    }

    /// Squared error of the unit under a coded pair.
    pub open spec fn error(self, x0: int, x1: int, params: SgrParamsType) -> int {
        pair_error(self.unit(), x0, x1, params)
    }

    /// That error is computed without overflow.
    pub open spec fn fits(self, x0: int, x1: int, params: SgrParamsType) -> bool {
        pair_fits(self.wide(), self.unit(), x0, x1, params)
    }
}

/// The unit of a pair of planes and two filtered versions.
pub open spec fn unit_in(
    planes: ProjPlanes,
    src_origin: int,
    src_stride: int,
    dat_origin: int,
    dat_stride: int,
    flt0: Seq<i32>,
    flt0_stride: int,
    flt1: Seq<i32>,
    flt1_stride: int,
    w: int,
    h: int,
) -> ProjUnit {
    match planes {
        ProjPlanes::Lowbd { src, dat } => unit_of(
            src@,
            src_origin,
            src_stride,
            dat@,
            dat_origin,
            dat_stride,
            flt0,
            flt0_stride,
            flt1,
            flt1_stride,
            w,
            h,
        ),
        ProjPlanes::Highbd { src, dat } => unit_of(
            src@,
            src_origin,
            src_stride,
            dat@,
            dat_origin,
            dat_stride,
            flt0,
            flt0_stride,
            flt1,
            flt1_stride,
            w,
            h,
        ),
    }
}

/// A unit lies in a pair of planes.
pub open spec fn planes_inside(
    planes: ProjPlanes,
    src_origin: int,
    src_stride: int,
    dat_origin: int,
    dat_stride: int,
    w: int,
    h: int,
) -> bool {
    match planes {
        ProjPlanes::Lowbd { src, dat } => {
            &&& inside(src@.len() as int, src_origin, src_stride, w, h)
            &&& inside(dat@.len() as int, dat_origin, dat_stride, w, h)
        },
        ProjPlanes::Highbd { src, dat } => {
            &&& inside(src@.len() as int, src_origin, src_stride, w, h)
            &&& inside(dat@.len() as int, dat_origin, dat_stride, w, h)
        },
    }
}

/// Squared error of a unit under a coded pair.
pub open spec fn pair_error(unit: ProjUnit, x0: int, x1: int, params: SgrParamsType) -> int {
    unit_error(unit, weight0(x0, params), weight1(x0, x1, params), params)
}

/// That error is computed without overflow.
pub open spec fn pair_fits(wide: bool, unit: ProjUnit, x0: int, x1: int, params: SgrParamsType) -> bool {
    &&& decodes(x0, x1, params)
    &&& error_fits(wide, unit, weight0(x0, params), weight1(x0, x1, params), params)
}

/// Squared error of a unit under a coded pair.
pub fn get_pixel_proj_error<'a>(
    planes: &ProjPlanes<'a>,
    src_origin: usize,
    width: usize,
    height: usize,
    src_stride: usize,
    dat_origin: usize,
    dat_stride: usize,
    flt0: &'a [i32],
    flt0_stride: usize,
    flt1: &'a [i32],
    flt1_stride: usize,
    xqd: &[i32; 2],
    params: &SgrParamsType,
) -> (err: i64)
    requires
        (ProjArgs {
            planes: *planes,
            src_origin,
            width,
            height,
            src_stride,
            dat_origin,
            dat_stride,
            flt0,
            flt0_stride,
            flt1,
            flt1_stride,
        }).inside(*params),
        (ProjArgs {
            planes: *planes,
            src_origin,
            width,
            height,
            src_stride,
            dat_origin,
            dat_stride,
            flt0,
            flt0_stride,
            flt1,
            flt1_stride,
        }).fits(xqd[0] as int, xqd[1] as int, *params),
    ensures
        err == (ProjArgs {
            planes: *planes,
            src_origin,
            width,
            height,
            src_stride,
            dat_origin,
            dat_stride,
            flt0,
            flt0_stride,
            flt1,
            flt1_stride,
        }).error(xqd[0] as int, xqd[1] as int, *params),
{
    let args: ProjArgs<'a> = ProjArgs {
        planes: *planes,
        src_origin,
        width,
        height,
        src_stride,
        dat_origin,
        dat_stride,
        flt0,
        flt0_stride,
        flt1,
        flt1_stride,
    };
    coded_error(&args, xqd, params)
}

/// Squared error of a unit under a coded pair. It is never negative.
pub fn coded_error(args: &ProjArgs, xqd: &[i32; 2], params: &SgrParamsType) -> (err: i64)
    requires
        args.inside(*params),
        args.fits(xqd[0] as int, xqd[1] as int, *params),
    ensures
        err == args.error(xqd[0] as int, xqd[1] as int, *params),
        0 <= err,
{
    let xq: [i32; 2] = decode_xq(xqd, params);
    proof {
        lemma_error_nonnegative(args.unit(), xq[0] as int, xq[1] as int, *params);
    }
    match args.planes {
        ProjPlanes::Lowbd { src, dat } => lowbd_pixel_proj_error(
            src,
            args.src_origin,
            args.width,
            args.height,
            args.src_stride,
            dat,
            args.dat_origin,
            args.dat_stride,
            args.flt0,
            args.flt0_stride,
            args.flt1,
            args.flt1_stride,
            &xq,
            params,
        ),
        ProjPlanes::Highbd { src, dat } => highbd_pixel_proj_error(
            src,
            args.src_origin,
            args.width,
            args.height,
            args.src_stride,
            dat,
            args.dat_origin,
            args.dat_stride,
            args.flt0,
            args.flt0_stride,
            args.flt1,
            args.flt1_stride,
            &xq,
            params,
        ),
    }
}

/// An error is a sum of squares.
pub proof fn lemma_error_nonnegative(unit: ProjUnit, w0: int, w1: int, params: SgrParamsType)
    ensures
        0 <= unit_error(unit, w0, w1, params),
{
    let f = squares(unit, w0, w1, params);
    assert forall|k: int| 0 <= k < unit.src.len() implies 0 <= #[trigger] f(k) by {
        let e = sample_error(unit.src[k], unit.dat[k], unit.flt0[k], unit.flt1[k], w0, w1, params);
        assert(0 <= e * e) by (nonlinear_arith);
    }
    lemma_total_grows(f, 0, unit.src.len() as int);
}

} // verus!
