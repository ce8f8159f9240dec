//! Padded planes, and the planes of a picture that is filtered.

use vstd::arithmetic::div_mod::lemma_fundamental_div_mod_converse;
use vstd::arithmetic::mul::{
    lemma_mul_inequality, lemma_mul_is_commutative, lemma_mul_is_distributive_add_other_way, lemma_mul_nonnegative,
};
use vstd::prelude::*;

use crate::arith::{clamp_int, lemma_raster_bounds, lemma_raster_index, lemma_raster_split};
use crate::raster::{block_of, inside, lemma_next_row, lemma_pos, pos};

verus! {

/// A plane inside a larger buffer.
#[derive(Debug, Clone)]
pub struct PaPlane {
    pub buf: Vec<u8>,
    /// Where the plane starts.
    pub org: usize,
    pub stride: usize,
    pub width: usize,
    pub height: usize,
}

impl PaPlane {
    /// The plane lies in its buffer.
    pub open spec fn wf(self) -> bool {
        inside(self.buf@.len() as int, self.org as int, self.stride as int, self.width as int, self.height as int)
    }

    /// The samples of the plane, row by row.
    pub open spec fn samples(self) -> Seq<int> {
        block_of(self.buf@, self.org as int, self.stride as int, self.width as int, self.height as int)
    }

    /// A plane without samples.
    pub fn empty() -> (r: PaPlane)
        ensures
            r.wf(),
            r.width == 0,
            r.height == 0,
            r.buf@.len() == 0,
            r.org == 0,
            r.stride == 0,
    {
        PaPlane { buf: Vec::new(), org: 0, stride: 0, width: 0, height: 0 }
    }

    /// A plane with a border all around that repeats its outermost samples.
    pub fn padded(plane: &[u8], width: usize, height: usize, border: usize) -> (r: PaPlane)
        requires
            0 < width,
            0 < height,
            width * height <= plane@.len(),
            (width + 2 * border) * (height + 2 * border) <= usize::MAX,
        ensures
            r.wf(),
            r.width == width,
            r.height == height,
            r.stride == width + 2 * border,
            r.org == border * r.stride + border,
            r.buf@.len() == (width + 2 * border) * (height + 2 * border),
            forall|k: int|
                0 <= k < r.buf@.len() ==> #[trigger] r.buf@[k] == plane@[clamp_int(
                    k / (r.stride as int) - border,
                    0,
                    height - 1,
                ) * width + clamp_int(k % (r.stride as int) - border, 0, width - 1)],
    {
        proof {
            lemma_mul_inequality(1, height + 2 * border, width + 2 * border);
            lemma_mul_is_commutative(width + 2 * border, height + 2 * border);
            lemma_mul_inequality(1, width + 2 * border, height + 2 * border);
        }
        let stride: usize = width + 2 * border;
        let rows: usize = height + 2 * border;
        let len: usize = plane.len();
        let mut buf: Vec<u8> = Vec::new();
        let mut r: usize = 0;
        proof {
            assert(0 * (stride as int) == 0) by (nonlinear_arith);
        }
        while r < rows
            invariant
                r <= rows,
                0 < width,
                0 < height,
                len == plane@.len(),
                width * height <= len,
                stride == width + 2 * border,
                rows == height + 2 * border,
                buf@.len() == r * stride,
                forall|k: int|
                    0 <= k < buf@.len() ==> #[trigger] buf@[k] == plane@[clamp_int(
                        k / (stride as int) - border,
                        0,
                        height - 1,
                    ) * width + clamp_int(k % (stride as int) - border, 0, width - 1)],
            decreases rows - r,
        {
            let y: usize = clamped(r, border, height);
            let mut c: usize = 0;
            while c < stride
                invariant
                    r < rows,
                    c <= stride,
                    0 < width,
                    0 < height,
                    len == plane@.len(),
                    width * height <= len,
                    stride == width + 2 * border,
                    rows == height + 2 * border,
                    y == clamp_int(r - border, 0, height - 1),
                    buf@.len() == r * stride + c,
                    forall|k: int|
                        0 <= k < buf@.len() ==> #[trigger] buf@[k] == plane@[clamp_int(
                            k / (stride as int) - border,
                            0,
                            height - 1,
                        ) * width + clamp_int(k % (stride as int) - border, 0, width - 1)],
                decreases stride - c,
            {
                let x: usize = clamped(c, border, width);
                proof {
                    lemma_raster_bounds(y as int, x as int, width as int, height as int);
                    lemma_raster_index(r as int, c as int, stride as int);
                    lemma_mul_nonnegative(y as int, width as int);
                }
                buf.push(plane[y * width + x]);
                c = c + 1;
            }
            proof {
                lemma_next_row(r as int, stride as int);
            }
            r = r + 1;
        }
        proof {
            lemma_mul_is_commutative(stride as int, rows as int);
            lemma_mul_inequality(border + height - 1, rows - 1, stride as int);
            lemma_mul_inequality(border as int, rows - 1, stride as int);
            lemma_mul_nonnegative(border as int, stride as int);
            lemma_next_row(rows - 1, stride as int);
            lemma_mul_is_distributive_add_other_way(
                stride as int,
                border as int,
                height - 1,
            );
        }
        PaPlane { buf, org: border * stride + border, stride, width, height }
    }

    /// The samples of the plane, row by row without gaps.
    pub fn extract(&self) -> (r: Vec<u8>)
        requires
            self.wf(),
        ensures
            r@.len() == self.width * self.height,
            forall|k: int|
                0 <= k < r@.len() ==> #[trigger] r@[k] == self.buf@[pos(
                    self.org as int,
                    self.stride as int,
                    self.width as int,
                    k,
                )],
    {
        let len: usize = self.buf.len();
        let mut out: Vec<u8> = Vec::new();
        let mut r: usize = 0;
        proof {
            assert(0 * (self.width as int) == 0) by (nonlinear_arith);
        }
        while r < self.height
            invariant
                r <= self.height,
                len == self.buf@.len(),
                self.wf(),
                out@.len() == r * self.width,
                forall|k: int|
                    0 <= k < out@.len() ==> #[trigger] out@[k] == self.buf@[pos(
                        self.org as int,
                        self.stride as int,
                        self.width as int,
                        k,
                    )],
            decreases self.height - r,
        {
            let mut c: usize = 0;
            while c < self.width
                invariant
                    r < self.height,
                    c <= self.width,
                    len == self.buf@.len(),
                    self.wf(),
                    out@.len() == r * self.width + c,
                    forall|k: int|
                        0 <= k < out@.len() ==> #[trigger] out@[k] == self.buf@[pos(
                            self.org as int,
                            self.stride as int,
                            self.width as int,
                            k,
                        )],
                decreases self.width - c,
            {
                proof {
                    lemma_pos(
                        len as int,
                        self.org as int,
                        self.stride as int,
                        self.width as int,
                        self.height as int,
                        r as int,
                        c as int,
                    );
                }
                out.push(self.buf[self.org + r * self.stride + c]);
                c = c + 1;
            }
            proof {
                lemma_next_row(r as int, self.width as int);
            }
            r = r + 1;
        }
        proof {
            lemma_mul_is_commutative(self.width as int, self.height as int);
        }
        out
    }
}

fn clamped(i: usize, border: usize, n: usize) -> (r: usize)
    requires
        0 < n,
    ensures
        r == clamp_int(i - border, 0, n - 1),
{
    if i < border {
        0
    } else if i - border >= n {
        n - 1
    } else {
        i - border
    }
}

/// The luma of a picture at full, half and quarter size.
#[derive(Debug, Clone)]
pub struct PaPicture {
    pub full: PaPlane,
    pub quarter: PaPlane,
    pub sixteenth: PaPlane,
    pub picture_number: u64,
}

/// The planes of a buffered picture.
#[derive(Debug, Clone)]
pub struct TfPicBufs {
    /// Luma and its smaller versions.
    pub pa: PaPicture,
    pub u: PaPlane,
    pub v: PaPlane,
    /// Luma before filtering.
    pub saved_y: Option<Vec<u8>>,
    /// The picture has been filtered.
    pub do_tf: bool,
}

impl TfPicBufs {
    /// Every plane lies in its buffer.
    pub open spec fn wf(self) -> bool {
        self.pa.full.wf() && self.u.wf() && self.v.wf()
    }

    /// The planes of a picture: luma, which `smaller` gives the smaller
    /// versions of, and chroma, where there is any, at half size with half the
    /// border.
    pub fn from_aligned_planes<F: Fn(Vec<u8>, usize, usize) -> (PaPlane, PaPlane)>(
        y_aligned: &[u8],
        u_aligned: &[u8],
        v_aligned: &[u8],
        aligned_w: usize,
        aligned_h: usize,
        border: usize,
        picture_number: u64,
        smaller: &F,
    ) -> (r: TfPicBufs)
        requires
            2 <= aligned_w,
            2 <= aligned_h,
            (aligned_w + 2 * border) * (aligned_h + 2 * border) <= usize::MAX,
            (aligned_w / 2 + 2 * (border / 2)) * (aligned_h / 2 + 2 * (border / 2)) <= usize::MAX,
            aligned_w * aligned_h <= y_aligned@.len(),
            u_aligned@.len() == 0 || (aligned_w / 2) * (aligned_h / 2) <= u_aligned@.len(),
            v_aligned@.len() == 0 || (aligned_w / 2) * (aligned_h / 2) <= v_aligned@.len(),
            forall|y: Vec<u8>| #[trigger] call_requires(*smaller, (y, aligned_w, aligned_h)),
        ensures
            r.saved_y is None,
            !r.do_tf,
            r.wf(),
            r.pa.picture_number == picture_number,
            is_aligned_picture(r, y_aligned@, u_aligned@, v_aligned@, aligned_w as int, aligned_h as int, border as int),
            made_smaller(*smaller, y_aligned@, aligned_w, aligned_h, (r.pa.quarter, r.pa.sixteenth)),
    {
        let cw: usize = aligned_w / 2;
        let ch: usize = aligned_h / 2;
        let cb: usize = border / 2;
        proof {
            vstd::arithmetic::mul::lemma_mul_strictly_positive(aligned_w as int, aligned_h as int);
        }
        let full: PaPlane = PaPlane::padded(y_aligned, aligned_w, aligned_h, border);
        let y: Vec<u8> = vstd::slice::slice_to_vec(y_aligned);
        let ghost asked = y;
        let made: (PaPlane, PaPlane) = smaller(y, aligned_w, aligned_h);
        assert(call_ensures(*smaller, (asked, aligned_w, aligned_h), made));
        assert(made_smaller(*smaller, y_aligned@, aligned_w, aligned_h, made));
        let (quarter, sixteenth): (PaPlane, PaPlane) = made;
        let u: PaPlane = if u_aligned.len() == 0 {
            PaPlane::empty()
        } else {
            PaPlane::padded(u_aligned, cw, ch, cb)
        };
        let v: PaPlane = if v_aligned.len() == 0 {
            PaPlane::empty()
        } else {
            PaPlane::padded(v_aligned, cw, ch, cb)
        };
        TfPicBufs { pa: PaPicture { full, quarter, sixteenth, picture_number }, u, v, saved_y: None, do_tf: false }
    }

    /// The luma samples, without gaps.
    pub fn extract_luma(&self) -> (r: Vec<u8>)
        requires
            self.pa.full.wf(),
        ensures
            is_extract(r@, self.pa.full),
    {
        self.pa.full.extract()
    }

    /// The samples of the first chroma plane, without gaps.
    pub fn extract_u(&self) -> (r: Vec<u8>)
        requires
            self.u.wf(),
        ensures
            is_extract(r@, self.u),
    {
        self.u.extract()
    }

    /// The samples of the second chroma plane, without gaps.
    pub fn extract_v(&self) -> (r: Vec<u8>)
        requires
            self.v.wf(),
        ensures
            is_extract(r@, self.v),
    {
        self.v.extract()
    }
}

/// `s` holds the samples of a plane, row by row.
pub open spec fn is_extract(s: Seq<u8>, p: PaPlane) -> bool {
    &&& s.len() == p.width * p.height
    &&& forall|k: int|
        0 <= k < s.len() ==> #[trigger] s[k] == p.buf@[pos(p.org as int, p.stride as int, p.width as int, k)]
}

/// `p` is a plane with a border that repeats its outermost samples, or empty
/// where there are no samples.
pub open spec fn is_padded_plane(p: PaPlane, samples: Seq<u8>, w: int, h: int, border: int) -> bool {
    if samples.len() == 0 {
        p.width == 0 && p.height == 0 && p.buf@.len() == 0
    } else {
        &&& p.width == w
        &&& p.height == h
        &&& p.stride == w + 2 * border
        &&& p.org == border * p.stride + border
        &&& p.buf@.len() == (w + 2 * border) * (h + 2 * border)
        &&& forall|k: int|
            0 <= k < p.buf@.len() ==> #[trigger] p.buf@[k] == samples[clamp_int(
                k / (p.stride as int) - border,
                0,
                h - 1,
            ) * w + clamp_int(k % (p.stride as int) - border, 0, w - 1)]
    }
}

/// `smaller` has made two smaller versions of a plane.
pub open spec fn made_smaller<F: Fn(Vec<u8>, usize, usize) -> (PaPlane, PaPlane)>(
    smaller: F,
    samples: Seq<u8>,
    w: usize,
    h: usize,
    planes: (PaPlane, PaPlane),
) -> bool {
    exists|y: Vec<u8>| #[trigger] call_ensures(smaller, (y, w, h), planes) && y@ == samples
}

/// The planes of a picture, each with a border.
pub open spec fn is_aligned_picture(
    b: TfPicBufs,
    y: Seq<u8>,
    u: Seq<u8>,
    v: Seq<u8>,
    w: int,
    h: int,
    border: int,
) -> bool {
    &&& is_padded_plane(b.pa.full, y, w, h, border)
    &&& is_padded_plane(b.u, u, w / 2, h / 2, border / 2)
    &&& is_padded_plane(b.v, v, w / 2, h / 2, border / 2)
}

/// Taking the planes of a picture out again gives back the planes it was made
/// of, luma and chroma alike.
pub proof fn aligned_planes_are_extracted(
    b: TfPicBufs,
    y: Seq<u8>,
    u: Seq<u8>,
    v: Seq<u8>,
    w: int,
    h: int,
    border: int,
    ys: Seq<u8>,
    us: Seq<u8>,
    vs: Seq<u8>,
)
    requires
        2 <= w,
        2 <= h,
        0 <= border,
        b.wf(),
        is_aligned_picture(b, y, u, v, w, h, border),
        y.len() == w * h,
        u.len() == 0 || u.len() == (w / 2) * (h / 2),
        v.len() == 0 || v.len() == (w / 2) * (h / 2),
        is_extract(ys, b.pa.full),
        is_extract(us, b.u),
        is_extract(vs, b.v),
    ensures
        ys == y,
        us == u,
        vs == v,
{
    padding_is_undone_by_extraction(y, b.pa.full, ys, w, h, border);
    if u.len() == 0 {
        assert(us =~= u);
    } else {
        padding_is_undone_by_extraction(u, b.u, us, w / 2, h / 2, border / 2);
    }
    if v.len() == 0 {
        assert(vs =~= v);
    } else {
        padding_is_undone_by_extraction(v, b.v, vs, w / 2, h / 2, border / 2);
    }
}

/// Taking a padded plane out again gives back its samples.
pub proof fn padding_is_undone_by_extraction(samples: Seq<u8>, p: PaPlane, s: Seq<u8>, w: int, h: int, border: int)
    requires
        0 < w,
        0 < h,
        0 <= border,
        samples.len() == w * h,
        p.wf(),
        is_padded_plane(p, samples, w, h, border),
        is_extract(s, p),
    ensures
        s == samples,
{
    assert(samples.len() > 0) by (nonlinear_arith)
        requires
            samples.len() == w * h,
            0 < w,
            0 < h,
    ;
    assert forall|k: int| 0 <= k < s.len() implies s[k] == samples[k] by {
        lemma_raster_split(k, w, h);
        let r = k / w;
        let c = k % w;
        let stride = p.stride as int;
        let at = pos(p.org as int, stride, w, k);
        lemma_pos(p.buf@.len() as int, p.org as int, stride, w, h, r, c);
        lemma_mul_is_distributive_add_other_way(stride, border, r);
        lemma_mul_nonnegative(border + r, stride);
        assert(at == (border + r) * stride + (border + c));
        lemma_fundamental_div_mod_converse(at, stride, border + r, border + c);
    }
    assert(s =~= samples);
}

} // verus!
