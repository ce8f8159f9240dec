//! The sweep over parameter sets, and the filtering of a unit block by block.

use vstd::arithmetic::div_mod::{
    lemma_div_pos_is_pos, lemma_fundamental_div_mod, lemma_fundamental_div_mod_converse, lemma_mod_add_multiples_vanish,
    lemma_mod_bound, lemma_mod_sub_multiples_vanish, lemma_small_mod,
};
use vstd::arithmetic::mul::{
    lemma_mul_inequality, lemma_mul_is_commutative, lemma_mul_is_distributive_add_other_way, lemma_mul_nonnegative,
};
use vstd::prelude::*;

use crate::arith::{lemma_raster_bounds, max_int, min_int};
use crate::raster::inside;
use crate::sgr_search::error::{filters_inside, pair_fits, planes_inside, unit_in, ProjArgs, ProjPlanes, ProjUnit};
use crate::sgr_search::refine::{refinable, refine_weights, searched, Probe};
use crate::sgr_search::{
    coded0, coded1, encode_xq, search_flt_stride, sgr_params, sgr_set, SgFilterCtrls, SgrParamsType, SgrprojInfo,
    RESTORATION_PROC_UNIT_SIZE,
};

verus! {

/// The two filtered versions of a block, row by row without gaps.
pub struct SgrBlock {
    pub flt0: Vec<i32>,
    pub flt1: Vec<i32>,
}

/// `filter` is a function of a block's place and size, defined everywhere,
/// and returns the whole block.
pub open spec fn is_block_filter<F: Fn(usize, usize, usize, usize) -> SgrBlock>(filter: F) -> bool {
    &&& forall|x: usize, y: usize, w: usize, h: usize| #[trigger] call_requires(filter, (x, y, w, h))
    &&& forall|x: usize, y: usize, w: usize, h: usize, r: SgrBlock| #[trigger]
        call_ensures(filter, (x, y, w, h), r) ==> r.flt0@.len() == w * h && r.flt1@.len() == w * h
    &&& forall|x: usize, y: usize, w: usize, h: usize, r1: SgrBlock, r2: SgrBlock| #[trigger]
        call_ensures(filter, (x, y, w, h), r1) && #[trigger] call_ensures(filter, (x, y, w, h), r2) ==> r1.flt0@
            == r2.flt0@ && r1.flt1@ == r2.flt1@
}

/// What `filter` returns for a block.
pub open spec fn block_filtered<F: Fn(usize, usize, usize, usize) -> SgrBlock>(
    filter: F,
    x: usize,
    y: usize,
    w: usize,
    h: usize,
) -> SgrBlock {
    choose|r: SgrBlock| #[trigger] call_ensures(filter, (x, y, w, h), r)
}

/// First row or column of the block that holds one.
pub open spec fn block_start(i: int, side: int) -> int {
    i / side * side
}

/// Filtered sample of a unit: that of the block that holds it.
pub open spec fn filtered_sample<F: Fn(usize, usize, usize, usize) -> SgrBlock>(
    filter: F,
    second: bool,
    r: int,
    c: int,
    width: int,
    height: int,
    pu_width: int,
    pu_height: int,
) -> i32 {
    let x = block_start(c, pu_width);
    let y = block_start(r, pu_height);
    let w = min_int(pu_width, width - x);
    let h = min_int(pu_height, height - y);
    let b = block_filtered(filter, x as usize, y as usize, w as usize, h as usize);
    if second {
        b.flt1@[(r - y) * w + (c - x)]
    } else {
        b.flt0@[(r - y) * w + (c - x)]
    }
}

/// `filter` has returned the block in row `r` and column `c` of the blocks of
/// a unit.
pub open spec fn block_asked<F: Fn(usize, usize, usize, usize) -> SgrBlock>(
    filter: F,
    width: int,
    height: int,
    pu_width: int,
    pu_height: int,
    r: int,
    c: int,
) -> bool {
    let x = c * pu_width;
    let y = r * pu_height;
    let w = min_int(pu_width, width - x) as usize;
    let h = min_int(pu_height, height - y) as usize;
    call_ensures(filter, (x as usize, y as usize, w, h), block_filtered(filter, x as usize, y as usize, w, h))
}

/// `filter` has returned the first `n` rows of blocks of a unit.
pub open spec fn rows_asked<F: Fn(usize, usize, usize, usize) -> SgrBlock>(
    filter: F,
    width: int,
    height: int,
    pu_width: int,
    pu_height: int,
    n: int,
) -> bool {
    forall|r: int, c: int|
        0 <= r < n && 0 <= c && r * pu_height < height && c * pu_width < width ==> #[trigger] block_asked(
            filter,
            width,
            height,
            pu_width,
            pu_height,
            r,
            c,
        )
}

/// `b` is `a` with a block written at a place.
pub open spec fn written(a: Seq<i32>, b: Seq<i32>, block: Seq<i32>, stride: int, x: int, y: int, w: int, h: int) -> bool {
    &&& b.len() == a.len()
    &&& forall|k: int|
        0 <= k < a.len() ==> #[trigger] b[k] == if y <= k / stride < y + h && x <= k % stride < x + w {
            block[(k / stride - y) * w + (k % stride - x)]
        } else {
            a[k]
        }
}

fn write_block(buf: &mut [i32], block: &[i32], stride: usize, x: usize, y: usize, w: usize, h: usize)
    requires
        w > 0,
        h > 0,
        x + w <= stride,
        y + h <= usize::MAX,
        (y + h - 1) * stride + x + w <= old(buf)@.len(),
        block@.len() == w * h,
    ensures
        written(
            old(buf)@,
            final(buf)@,
            block@,
            stride as int,
            x as int,
            y as int,
            w as int,
            h as int,
        ),
{
    let ghost a = buf@;
    let len: usize = buf.len();
    let block_len: usize = block.len();
    let mut i: usize = 0;
    while i < h
        invariant
            i <= h,
            w > 0,
            x + w <= stride,
            y + h <= usize::MAX,
            len == a.len(),
            buf@.len() == len,
            (y + h - 1) * stride + x + w <= len,
            block_len == block@.len(),
            block_len == w * h,
            written(a, buf@, block@, stride as int, x as int, y as int, w as int, i as int),
        decreases h - i,
    {
        let mut j: usize = 0;
        proof {
            lemma_raster_bounds(i as int, 0, w as int, h as int);
            lemma_mul_inequality(y + i, y + h - 1, stride as int);
            lemma_mul_nonnegative(y + i, stride as int);
        }
        let row: usize = (y + i) * stride + x;
        let from: usize = i * w;
        let ghost before = buf@;
        while j < w
            invariant
                i < h,
                j <= w,
                x + w <= stride,
                row == (y + i) * stride + x,
                from == i * w,
                row + w <= len,
                from + w <= block_len,
                len == a.len(),
                buf@.len() == len,
                before.len() == len,
                block_len == block@.len(),
                forall|k: int|
                    0 <= k < len ==> #[trigger] buf@[k] == if row <= k < row + j {
                        block@[from + (k - row)]
                    } else {
                        before[k]
                    },
            decreases w - j,
        {
            buf[row + j] = block[from + j];
            j = j + 1;
        }
        proof {
            assert forall|k: int| 0 <= k < a.len() implies #[trigger] buf@[k] == if y <= k / (stride as int) < y + i + 1
                && x <= k % (stride as int) < x + w {
                block@[(k / (stride as int) - y) * w + (k % (stride as int) - x)]
            } else {
                a[k]
            } by {
                let s = stride as int;
                lemma_fundamental_div_mod(k, s);
                lemma_mul_is_commutative(k / s, s);
                if row <= k < row + w {
                    lemma_fundamental_div_mod_converse(k, s, y + i, k - (y + i) * s);
                } else if k / s == y + i && x <= k % s < x + w {
                    assert(k == (y + i) * s + k % s);
                    assert(false);
                }
            }
        }
        i = i + 1;
    }
}

/// Filters a unit in blocks and writes both versions at the unit's stride.
pub fn apply_sgr<F: Fn(usize, usize, usize, usize) -> SgrBlock>(
    width: i32,
    height: i32,
    pu_width: i32,
    pu_height: i32,
    flt0: &mut [i32],
    flt1: &mut [i32],
    flt_stride: usize,
    filter: &F,
)
    requires
        is_block_filter(*filter),
        0 < pu_width,
        0 < pu_height,
        width + pu_width <= i32::MAX,
        height + pu_height <= i32::MAX,
        0 < flt_stride,
        width <= flt_stride,
        inside(old(flt0)@.len() as int, 0, flt_stride as int, width as int, height as int),
        inside(old(flt1)@.len() as int, 0, flt_stride as int, width as int, height as int),
    ensures
        unit_filtered(
            *filter,
            false,
            old(flt0)@,
            final(flt0)@,
            flt_stride as int,
            width as int,
            height as int,
            pu_width as int,
            pu_height as int,
            height as int,
            0,
        ),
        unit_filtered(
            *filter,
            true,
            old(flt1)@,
            final(flt1)@,
            flt_stride as int,
            width as int,
            height as int,
            pu_width as int,
            pu_height as int,
            height as int,
            0,
        ),
        rows_asked(*filter, width as int, height as int, pu_width as int, pu_height as int, height as int),
{
    let ghost a0 = flt0@;
    let ghost a1 = flt1@;
    proof {
        lemma_nothing_done(*filter, false, a0, flt_stride as int, width as int, height as int, pu_width as int, pu_height as int);
        lemma_nothing_done(*filter, true, a1, flt_stride as int, width as int, height as int, pu_width as int, pu_height as int);
        assert(0 * pu_height == 0);
    }
    let mut i: i32 = 0;
    let ghost mut bi: int = 0;
    while i < height
        invariant
            is_block_filter(*filter),
            0 < pu_width,
            0 < pu_height,
            width + pu_width <= i32::MAX,
            height + pu_height <= i32::MAX,
            0 < flt_stride,
            width <= flt_stride,
            0 <= bi,
            i == bi * pu_height,
            rows_asked(*filter, width as int, height as int, pu_width as int, pu_height as int, bi),
            0 <= i,
            height > 0 ==> i < height + pu_height,
            inside(a0.len() as int, 0, flt_stride as int, width as int, height as int),
            inside(a1.len() as int, 0, flt_stride as int, width as int, height as int),
            unit_filtered(
                *filter,
                false,
                a0,
                flt0@,
                flt_stride as int,
                width as int,
                height as int,
                pu_width as int,
                pu_height as int,
                i as int,
                0,
            ),
            unit_filtered(
                *filter,
                true,
                a1,
                flt1@,
                flt_stride as int,
                width as int,
                height as int,
                pu_width as int,
                pu_height as int,
                i as int,
                0,
            ),
        decreases height + pu_height - i,
    {
        let h: i32 = if pu_height < height - i {
            pu_height
        } else {
            height - i
        };
        let mut j: i32 = 0;
        let ghost mut bj: int = 0;
        proof {
            assert(0 * pu_width == 0);
        }
        while j < width
            invariant
                is_block_filter(*filter),
                0 < pu_width,
                0 < pu_height,
                width + pu_width <= i32::MAX,
                height + pu_height <= i32::MAX,
                0 < flt_stride,
                width <= flt_stride,
                0 <= bi,
                i == bi * pu_height,
                rows_asked(*filter, width as int, height as int, pu_width as int, pu_height as int, bi),
                forall|c: int|
                    0 <= c < bj ==> #[trigger] block_asked(
                        *filter,
                        width as int,
                        height as int,
                        pu_width as int,
                        pu_height as int,
                        bi,
                        c,
                    ),
                0 <= i < height,
                h == min_int(pu_height as int, height - i),
                0 <= bj,
                j == bj * pu_width,
                0 <= j,
                width > 0 ==> j < width + pu_width,
                inside(a0.len() as int, 0, flt_stride as int, width as int, height as int),
                inside(a1.len() as int, 0, flt_stride as int, width as int, height as int),
                unit_filtered(
                    *filter,
                    false,
                    a0,
                    flt0@,
                    flt_stride as int,
                    width as int,
                    height as int,
                    pu_width as int,
                    pu_height as int,
                    i as int,
                    j as int,
                ),
                unit_filtered(
                    *filter,
                    true,
                    a1,
                    flt1@,
                    flt_stride as int,
                    width as int,
                    height as int,
                    pu_width as int,
                    pu_height as int,
                    i as int,
                    j as int,
                ),
            decreases width + pu_width - j,
        {
            let w: i32 = if pu_width < width - j {
                pu_width
            } else {
                width - j
            };
            let b: SgrBlock = filter(j as usize, i as usize, w as usize, h as usize);
            let ghost c = block_filtered(*filter, j as usize, i as usize, w as usize, h as usize);
            proof {
                assert(call_ensures(filter, (j as usize, i as usize, w as usize, h as usize), b));
                assert(call_ensures(*filter, (j as usize, i as usize, w as usize, h as usize), c));
                lemma_mul_inequality(i + h - 1, height - 1, flt_stride as int);
            }
            let ghost m0 = flt0@;
            let ghost m1 = flt1@;
            write_block(flt0, &b.flt0, flt_stride, j as usize, i as usize, w as usize, h as usize);
            write_block(flt1, &b.flt1, flt_stride, j as usize, i as usize, w as usize, h as usize);
            proof {
                lemma_block_done(
                    *filter,
                    false,
                    a0,
                    m0,
                    flt0@,
                    b.flt0@,
                    flt_stride as int,
                    width as int,
                    height as int,
                    pu_width as int,
                    pu_height as int,
                    bi,
                    bj,
                );
                lemma_block_done(
                    *filter,
                    true,
                    a1,
                    m1,
                    flt1@,
                    b.flt1@,
                    flt_stride as int,
                    width as int,
                    height as int,
                    pu_width as int,
                    pu_height as int,
                    bi,
                    bj,
                );
                lemma_mul_is_distributive_add_other_way(pu_width as int, bj, 1);
                assert(block_asked(
                    *filter,
                    width as int,
                    height as int,
                    pu_width as int,
                    pu_height as int,
                    bi,
                    bj,
                ));
                bj = bj + 1;
            }
            j = j + pu_width;
        }
        proof {
            lemma_rows_done(*filter, false, a0, flt0@, flt_stride as int, width as int, height as int, pu_width as int, pu_height as int, i as int, j as int);
            lemma_rows_done(*filter, true, a1, flt1@, flt_stride as int, width as int, height as int, pu_width as int, pu_height as int, i as int, j as int);
            lemma_mul_is_distributive_add_other_way(pu_height as int, bi, 1);
            assert forall|r: int, c: int|
                0 <= r < bi + 1 && 0 <= c && r * pu_height < height && c * pu_width
                    < width implies #[trigger] block_asked(
                *filter,
                width as int,
                height as int,
                pu_width as int,
                pu_height as int,
                r,
                c,
            ) by {
                if r == bi && c >= bj {
                    lemma_mul_inequality(bj, c, pu_width as int);
                }
            }
            bi = bi + 1;
        }
        i = i + pu_height;
    }
    proof {
        assert forall|r: int, c: int|
            0 <= r < height && 0 <= c && r * pu_height < height && c * pu_width < width implies #[trigger] block_asked(
            *filter,
            width as int,
            height as int,
            pu_width as int,
            pu_height as int,
            r,
            c,
        ) by {
            if r >= bi {
                lemma_mul_inequality(bi, r, pu_height as int);
            }
        }
    }
    proof {
        lemma_all_done(*filter, false, a0, flt0@, flt_stride as int, width as int, height as int, pu_width as int, pu_height as int, i as int);
        lemma_all_done(*filter, true, a1, flt1@, flt_stride as int, width as int, height as int, pu_width as int, pu_height as int, i as int);
    }
}

/// `b` is `a` with the unit's filtered samples down to row `i`, and up to
/// column `j` in the blocks that start there.
pub open spec fn unit_filtered<F: Fn(usize, usize, usize, usize) -> SgrBlock>(
    filter: F,
    second: bool,
    a: Seq<i32>,
    b: Seq<i32>,
    stride: int,
    width: int,
    height: int,
    pu_width: int,
    pu_height: int,
    i: int,
    j: int,
) -> bool {
    &&& b.len() == a.len()
    &&& forall|k: int|
        0 <= k < a.len() ==> #[trigger] b[k] == if k % stride < width && k / stride < height && (k / stride < i || (k
            / stride < i + pu_height && k % stride < j)) {
            filtered_sample(filter, second, k / stride, k % stride, width, height, pu_width, pu_height)
        } else {
            a[k]
        }
}

proof fn lemma_block_done<F: Fn(usize, usize, usize, usize) -> SgrBlock>(
    filter: F,
    second: bool,
    a: Seq<i32>,
    m: Seq<i32>,
    b: Seq<i32>,
    block: Seq<i32>,
    stride: int,
    width: int,
    height: int,
    pu_width: int,
    pu_height: int,
    bi: int,
    bj: int,
)
    requires
        0 < pu_width,
        0 < pu_height,
        0 <= bi,
        0 <= bj,
        0 <= bj * pu_width < width,
        0 <= bi * pu_height < height,
        width <= stride,
        unit_filtered(
            filter,
            second,
            a,
            m,
            stride,
            width,
            height,
            pu_width,
            pu_height,
            bi * pu_height,
            bj * pu_width,
        ),
        written(
            m,
            b,
            block,
            stride,
            bj * pu_width,
            bi * pu_height,
            min_int(pu_width, width - bj * pu_width),
            min_int(pu_height, height - bi * pu_height),
        ),
        block == (if second {
            block_filtered(
                filter,
                (bj * pu_width) as usize,
                (bi * pu_height) as usize,
                min_int(pu_width, width - bj * pu_width) as usize,
                min_int(pu_height, height - bi * pu_height) as usize,
            ).flt1@
        } else {
            block_filtered(
                filter,
                (bj * pu_width) as usize,
                (bi * pu_height) as usize,
                min_int(pu_width, width - bj * pu_width) as usize,
                min_int(pu_height, height - bi * pu_height) as usize,
            ).flt0@
        }),
    ensures
        unit_filtered(
            filter,
            second,
            a,
            b,
            stride,
            width,
            height,
            pu_width,
            pu_height,
            bi * pu_height,
            bj * pu_width + pu_width,
        ),
{
    let i = bi * pu_height;
    let j = bj * pu_width;
    assert forall|k: int| 0 <= k < a.len() implies #[trigger] b[k] == if k % stride < width && k / stride < height && (k
        / stride < i || (k / stride < i + pu_height && k % stride < j + pu_width)) {
        filtered_sample(filter, second, k / stride, k % stride, width, height, pu_width, pu_height)
    } else {
        a[k]
    } by {
        let r = k / stride;
        let c = k % stride;
        if i <= r < i + pu_height && j <= c < j + pu_width && r < height && c < width {
            lemma_fundamental_div_mod_converse(r, pu_height, bi, r - i);
            lemma_fundamental_div_mod_converse(c, pu_width, bj, c - j);
            assert(block_start(r, pu_height) == i);
            assert(block_start(c, pu_width) == j);
        }
        let _ = m[k];
    }
}

proof fn lemma_rows_done<F: Fn(usize, usize, usize, usize) -> SgrBlock>(
    filter: F,
    second: bool,
    a: Seq<i32>,
    b: Seq<i32>,
    stride: int,
    width: int,
    height: int,
    pu_width: int,
    pu_height: int,
    i: int,
    j: int,
)
    requires
        0 < stride,
        0 < pu_height,
        j >= width,
        unit_filtered(filter, second, a, b, stride, width, height, pu_width, pu_height, i, j),
    ensures
        unit_filtered(filter, second, a, b, stride, width, height, pu_width, pu_height, i + pu_height, 0),
{
    assert forall|k: int| 0 <= k < a.len() implies #[trigger] b[k] == if k % stride < width && k / stride < height && (k
        / stride < i + pu_height || (k / stride < i + pu_height + pu_height && k % stride < 0)) {
        filtered_sample(filter, second, k / stride, k % stride, width, height, pu_width, pu_height)
    } else {
        a[k]
    } by {
        lemma_mod_bound(k, stride);
    }
}

proof fn lemma_nothing_done<F: Fn(usize, usize, usize, usize) -> SgrBlock>(
    filter: F,
    second: bool,
    a: Seq<i32>,
    stride: int,
    width: int,
    height: int,
    pu_width: int,
    pu_height: int,
)
    requires
        0 < stride,
    ensures
        unit_filtered(filter, second, a, a, stride, width, height, pu_width, pu_height, 0, 0),
{
    assert forall|k: int| 0 <= k < a.len() implies #[trigger] a[k] == if k % stride < width && k / stride < height && (k
        / stride < 0 || (k / stride < 0 + pu_height && k % stride < 0)) {
        filtered_sample(filter, second, k / stride, k % stride, width, height, pu_width, pu_height)
    } else {
        a[k]
    } by {
        lemma_mod_bound(k, stride);
        lemma_div_pos_is_pos(k, stride);
    }
}

proof fn lemma_all_done<F: Fn(usize, usize, usize, usize) -> SgrBlock>(
    filter: F,
    second: bool,
    a: Seq<i32>,
    b: Seq<i32>,
    stride: int,
    width: int,
    height: int,
    pu_width: int,
    pu_height: int,
    i: int,
)
    requires
        0 < stride,
        height <= i,
        unit_filtered(filter, second, a, b, stride, width, height, pu_width, pu_height, i, 0),
    ensures
        unit_filtered(filter, second, a, b, stride, width, height, pu_width, pu_height, height, 0),
{
    assert forall|k: int| 0 <= k < a.len() implies #[trigger] b[k] == if k % stride < width && k / stride < height && (k
        / stride < height || (k / stride < height + pu_height && k % stride < 0)) {
        filtered_sample(filter, second, k / stride, k % stride, width, height, pu_width, pu_height)
    } else {
        a[k]
    } by {
        lemma_mod_bound(k, stride);
    }
}

/// Both filtered versions of a unit under a parameter set, and the projection
/// weights that bring them closest to the source.
pub struct SgrFiltered {
    pub flt0: Vec<i32>,
    pub flt1: Vec<i32>,
    pub xq: [i32; 2],
}

/// `solve` is a function of the parameter set and of the size of the blocks
/// a unit is filtered in, defined everywhere.
pub open spec fn is_solver<F: Fn(i32, i32, i32) -> SgrFiltered>(solve: F) -> bool {
    &&& forall|ep: i32, w: i32, h: i32| #[trigger] call_requires(solve, (ep, w, h))
    &&& forall|ep: i32, w: i32, h: i32, r1: SgrFiltered, r2: SgrFiltered| #[trigger]
        call_ensures(solve, (ep, w, h), r1) && #[trigger] call_ensures(solve, (ep, w, h), r2) ==> r1.flt0@ == r2.flt0@
            && r1.flt1@ == r2.flt1@ && r1.xq@ == r2.xq@
}

/// What `solve` returns.
pub open spec fn solved<F: Fn(i32, i32, i32) -> SgrFiltered>(solve: F, ep: i32, w: i32, h: i32) -> SgrFiltered {
    choose|r: SgrFiltered| #[trigger] call_ensures(solve, (ep, w, h), r)
}

/// `solve` has been asked for step `k` of a sweep.
pub open spec fn step_solved<F: Fn(i32, i32, i32) -> SgrFiltered>(
    solve: F,
    start: int,
    inc: int,
    k: int,
    w: i32,
    h: i32,
) -> bool {
    call_ensures(solve, ((start + k * inc) as i32, w, h), solved(solve, (start + k * inc) as i32, w, h))
}

/// `solve` has been asked for every step of the sweep of a lane.
pub open spec fn sweep_solved<F: Fn(i32, i32, i32) -> SgrFiltered>(
    solve: F,
    ctrls: SgFilterCtrls,
    lane: int,
    w: i32,
    h: i32,
) -> bool {
    forall|k: int|
        0 <= k && ctrls.start_ep[lane] + k * ctrls.ep_inc[lane] < ctrls.end_ep[lane] ==> #[trigger] step_solved(
            solve,
            ctrls.start_ep[lane] as int,
            ctrls.ep_inc[lane] as int,
            k,
            w,
            h,
        )
}

/// Where a unit lies in its planes.
#[derive(Clone, Copy)]
pub struct SgrUnit<'a> {
    pub planes: ProjPlanes<'a>,
    pub src_origin: usize,
    pub src_stride: usize,
    pub dat_origin: usize,
    pub dat_stride: usize,
    pub width: i32,
    pub height: i32,
}

impl<'a> SgrUnit<'a> {
    /// Stride of the filtered samples.
    pub open spec fn stride(self) -> int {
        (self.width + 7) / 8 * 8 + 8
    }

    /// The unit lies in its planes.
    pub open spec fn wf(self) -> bool {
        &&& 0 <= self.width <= i32::MAX - 15
        &&& 0 <= self.height
        &&& planes_inside(
            self.planes,
            self.src_origin as int,
            self.src_stride as int,
            self.dat_origin as int,
            self.dat_stride as int,
            self.width as int,
            self.height as int,
        )
    }

    /// The samples of the unit with its filtered versions.
    pub open spec fn samples(self, r: SgrFiltered) -> ProjUnit {
        unit_in(
            self.planes,
            self.src_origin as int,
            self.src_stride as int,
            self.dat_origin as int,
            self.dat_stride as int,
            r.flt0@,
            self.stride(),
            r.flt1@,
            self.stride(),
            self.width as int,
            self.height as int,
        )
    }

    /// The coded pair of a parameter set and its error.
    pub open spec fn candidate(self, ep: int, r: SgrFiltered, refine: bool) -> Probe {
        searched(
            self.samples(r),
            2,
            coded0(r.xq[0] as int, sgr_set(ep)),
            coded1(r.xq[0] as int, r.xq[1] as int, sgr_set(ep)),
            refine,
            sgr_set(ep),
        )
    }

    /// Whatever `solve` returns for a parameter set can be searched.
    pub open spec fn all_fit<F: Fn(i32, i32, i32) -> SgrFiltered>(self, solve: F, ep: i32, w: i32, h: i32) -> bool {
        forall|r: SgrFiltered| #[trigger] call_ensures(solve, (ep, w, h), r) ==> self.fits(ep as int, r)
    }

    /// The filtered versions cover the unit, and nothing that the search
    /// computes from them overflows.
    pub open spec fn fits(self, ep: int, r: SgrFiltered) -> bool {
        let params = sgr_set(ep);
        &&& filters_inside(
            r.flt0@,
            self.stride(),
            r.flt1@,
            self.stride(),
            self.width as int,
            self.height as int,
            params,
        )
        &&& params.r[0] == 0 ==> i32::MIN <= 128 - r.xq[1] <= i32::MAX
        &&& params.r[0] != 0 && params.r[1] != 0 ==> i32::MIN <= 128 - coded0(r.xq[0] as int, params) - r.xq[1]
            <= i32::MAX
        &&& refinable(
            self.planes is Highbd,
            self.samples(r),
            2,
            coded0(r.xq[0] as int, params),
            coded1(r.xq[0] as int, r.xq[1] as int, params),
            params,
        )
    }
}

/// The best of the parameter sets `ep`, `ep + inc`, .. below `end` and an
/// earlier best. The earlier one keeps a tie.
pub open spec fn swept(
    candidates: spec_fn(int) -> Probe,
    ep: int,
    end: int,
    inc: int,
    best: Option<(int, Probe)>,
) -> Option<(int, Probe)>
    decreases max_int(end - ep, 0),
    when inc > 0
{
    if ep >= end {
        best
    } else {
        let c = candidates(ep);
        let next = if best is None || c.err < (best->0).1.err {
            Some((ep, c))
        } else {
            best
        };
        swept(candidates, ep + inc, end, inc, next)
    }
}

/// The candidates of a unit.
pub open spec fn candidates_of<F: Fn(i32, i32, i32) -> SgrFiltered>(
    unit: SgrUnit,
    solve: F,
    pu_width: i32,
    pu_height: i32,
    refine: bool,
) -> spec_fn(int) -> Probe {
    |ep: int| unit.candidate(ep, solved(solve, ep as i32, pu_width, pu_height), refine)
}

/// Luma and chroma have controls of their own; the chroma planes share
/// theirs.
pub open spec fn lane_of(plane: int) -> int {
    if plane > 0 {
        1
    } else {
        0
    }
}

/// The sweep is finite and stays among the parameter sets.
pub open spec fn sweep_wf(ctrls: SgFilterCtrls, lane: int) -> bool {
    &&& ctrls.end_ep[lane] <= 16
    &&& ctrls.start_ep[lane] < ctrls.end_ep[lane] ==> ctrls.ep_inc[lane] > 0
}

/// What a unit signals: the best of the parameter sets that are tried, or
/// set zero with zero weights where none is.
pub open spec fn is_choice<F: Fn(i32, i32, i32) -> SgrFiltered>(
    info: SgrprojInfo,
    unit: SgrUnit,
    solve: F,
    pu_width: i32,
    pu_height: i32,
    ctrls: SgFilterCtrls,
    lane: int,
) -> bool {
    if ctrls.start_ep[lane] >= ctrls.end_ep[lane] {
        info.ep == 0 && info.xqd[0] == 0 && info.xqd[1] == 0
    } else {
        let best = swept(
            candidates_of(unit, solve, pu_width, pu_height, ctrls.refine[lane]),
            ctrls.start_ep[lane] as int,
            ctrls.end_ep[lane] as int,
            ctrls.ep_inc[lane] as int,
            None,
        );
        &&& best is Some
        &&& info.ep == (best->0).0
        &&& info.xqd[0] == (best->0).1.x0
        &&& info.xqd[1] == (best->0).1.x1
    }
}

fn try_set(unit: &SgrUnit, ep: i32, r: &SgrFiltered, do_refine: bool) -> (c: ([i32; 2], i64))
    requires
        0 <= ep < 16,
        unit.wf(),
        unit.fits(ep as int, *r),
    ensures
        (Probe { x0: c.0[0] as int, x1: c.0[1] as int, err: c.1 as int }) == unit.candidate(ep as int, *r, do_refine),
        0 <= c.1,
{
    let params: SgrParamsType = sgr_params(ep as usize);
    let stride: usize = search_flt_stride(unit.width);
    let args: ProjArgs = ProjArgs {
        planes: unit.planes,
        src_origin: unit.src_origin,
        width: unit.width as usize,
        height: unit.height as usize,
        src_stride: unit.src_stride,
        dat_origin: unit.dat_origin,
        dat_stride: unit.dat_stride,
        flt0: r.flt0.as_slice(),
        flt0_stride: stride,
        flt1: r.flt1.as_slice(),
        flt1_stride: stride,
    };
    let mut xqd: [i32; 2] = encode_xq(&r.xq, &params);
    proof {
        assert(args.unit() == unit.samples(*r));
        assert(pair_fits(args.wide(), args.unit(), xqd[0] as int, xqd[1] as int, params));
    }
    let err: i64 = refine_weights(&args, 2, &mut xqd, do_refine, &params);
    (xqd, err)
}

/// Tries the parameter sets of a plane on a unit and returns what the best
/// one signals. `solve` filters the unit under a set, in blocks of a size,
/// and solves for the projection weights.
pub fn search_selfguided_restoration<'a, F: Fn(i32, i32, i32) -> SgrFiltered>(
    planes: &ProjPlanes<'a>,
    dat_origin: usize,
    width: i32,
    height: i32,
    dat_stride: usize,
    src_origin: usize,
    src_stride: usize,
    pu_width: i32,
    pu_height: i32,
    ctrls: &SgFilterCtrls,
    plane: usize,
    solve: &F,
) -> (info: SgrprojInfo)
    requires
        is_solver(*solve),
        (SgrUnit {
            planes: *planes,
            src_origin,
            src_stride,
            dat_origin,
            dat_stride,
            width,
            height,
        }).wf(),
        sweep_wf(*ctrls, lane_of(plane as int)),
        forall|ep: i32|
            ctrls.start_ep[lane_of(plane as int)] <= ep < ctrls.end_ep[lane_of(plane as int)] ==> (SgrUnit {
            planes: *planes,
            src_origin,
            src_stride,
            dat_origin,
            dat_stride,
            width,
            height,
        }).all_fit(*solve, ep, pu_width, pu_height),
    ensures
        is_choice(
            info,
            (SgrUnit {
            planes: *planes,
            src_origin,
            src_stride,
            dat_origin,
            dat_stride,
            width,
            height,
        }),
            *solve,
            pu_width,
            pu_height,
            *ctrls,
            lane_of(plane as int),
        ),
        sweep_solved(*solve, *ctrls, lane_of(plane as int), pu_width, pu_height),
{
    let unit: SgrUnit<'a> = SgrUnit {
        planes: *planes,
        src_origin,
        src_stride,
        dat_origin,
        dat_stride,
        width,
        height,
    };
    let lane: usize = if plane > 0 {
        1
    } else {
        0
    };
    let start_ep: i32 = ctrls.start_ep[lane] as i32;
    let end_ep: i32 = ctrls.end_ep[lane] as i32;
    let ep_inc: i32 = ctrls.ep_inc[lane] as i32;
    let do_refine: bool = ctrls.refine[lane];
    let ghost candidates = candidates_of(unit, *solve, pu_width, pu_height, do_refine);
    let mut best_ep: i32 = 0;
    let mut best_err: i64 = -1;
    let mut best_xqd: [i32; 2] = [0, 0];
    let mut ep: i32 = start_ep;
    let ghost goal = swept(candidates, start_ep as int, end_ep as int, ep_inc as int, None);
    let ghost mut k: int = 0;
    while ep < end_ep
        invariant
            is_solver(*solve),
            unit.wf(),
            0 <= k,
            ep == start_ep + k * ep_inc,
            forall|j: int|
                0 <= j < k ==> #[trigger] step_solved(
                    *solve,
                    start_ep as int,
                    ep_inc as int,
                    j,
                    pu_width,
                    pu_height,
                ),
            0 <= start_ep <= ep,
            end_ep <= 16,
            ep <= 16 + 255,
            start_ep < end_ep ==> 0 < ep_inc <= 255,
            forall|e: i32|
                start_ep <= e < end_ep ==> #[trigger] unit.all_fit(*solve, e, pu_width, pu_height),
            candidates == candidates_of(unit, *solve, pu_width, pu_height, do_refine),
            best_err >= -1,
            best_err == -1 ==> best_ep == 0 && best_xqd[0] == 0 && best_xqd[1] == 0,
            best_err == -1 ==> ep == start_ep,
            start_ep >= end_ep ==> best_err == -1,
            start_ep < end_ep ==> goal == swept(
                candidates,
                ep as int,
                end_ep as int,
                ep_inc as int,
                if best_err == -1 {
                    None
                } else {
                    Some(
                        (
                            best_ep as int,
                            Probe { x0: best_xqd[0] as int, x1: best_xqd[1] as int, err: best_err as int },
                        ),
                    )
                },
            ),
        decreases end_ep + 300 - ep,
    {
        let r: SgrFiltered = solve(ep, pu_width, pu_height);
        let ghost s = solved(*solve, ep, pu_width, pu_height);
        proof {
            assert(unit.all_fit(*solve, ep, pu_width, pu_height));
            assert(call_ensures(solve, (ep, pu_width, pu_height), r));
            assert(call_ensures(*solve, (ep, pu_width, pu_height), s));
            assert(r.xq[0] == r.xq@[0] && r.xq[1] == r.xq@[1]);
            assert(s.xq[0] == s.xq@[0] && s.xq[1] == s.xq@[1]);
            assert(unit.samples(r) == unit.samples(s));
            assert(unit.fits(ep as int, r));
            assert(candidates(ep as int) == unit.candidate(ep as int, s, do_refine));
        }
        let (xqd, err): ([i32; 2], i64) = try_set(&unit, ep, &r, do_refine);
        if best_err == -1 || err < best_err {
            best_ep = ep;
            best_err = err;
            best_xqd = xqd;
        }
        proof {
            assert(step_solved(*solve, start_ep as int, ep_inc as int, k, pu_width, pu_height));
            vstd::arithmetic::mul::lemma_mul_is_distributive_add_other_way(ep_inc as int, k, 1);
            k = k + 1;
        }
        ep = ep + ep_inc;
    }
    proof {
        assert forall|j: int| 0 <= j && start_ep + j * ep_inc < end_ep implies #[trigger] step_solved(
            *solve,
            start_ep as int,
            ep_inc as int,
            j,
            pu_width,
            pu_height,
        ) by {
            if j >= k {
                if ep_inc >= 0 {
                    vstd::arithmetic::mul::lemma_mul_inequality(k, j, ep_inc as int);
                }
            }
        }
    }
    SgrprojInfo { ep: best_ep, xqd: best_xqd }
}

/// The same with blocks of the size a plane is filtered in: 64 samples on a
/// side, half as many along a subsampled one.
pub fn search_sgrproj_unit<'a, F: Fn(i32, i32, i32) -> SgrFiltered>(
    planes: &ProjPlanes<'a>,
    dat_origin: usize,
    width: i32,
    height: i32,
    dat_stride: usize,
    src_origin: usize,
    src_stride: usize,
    plane: usize,
    subsampling_x: bool,
    subsampling_y: bool,
    ctrls: &SgFilterCtrls,
    solve: &F,
) -> (info: SgrprojInfo)
    requires
        is_solver(*solve),
        (SgrUnit {
            planes: *planes,
            src_origin,
            src_stride,
            dat_origin,
            dat_stride,
            width,
            height,
        }).wf(),
        sweep_wf(*ctrls, lane_of(plane as int)),
        forall|ep: i32|
            ctrls.start_ep[lane_of(plane as int)] <= ep < ctrls.end_ep[lane_of(plane as int)] ==> (SgrUnit {
            planes: *planes,
            src_origin,
            src_stride,
            dat_origin,
            dat_stride,
            width,
            height,
        }).all_fit(
                *solve,
                ep,
                proc_side(plane as int, subsampling_x),
                proc_side(plane as int, subsampling_y),
            ),
    ensures
        is_choice(
            info,
            (SgrUnit {
            planes: *planes,
            src_origin,
            src_stride,
            dat_origin,
            dat_stride,
            width,
            height,
        }),
            *solve,
            proc_side(plane as int, subsampling_x),
            proc_side(plane as int, subsampling_y),
            *ctrls,
            lane_of(plane as int),
        ),
        sweep_solved(
            *solve,
            *ctrls,
            lane_of(plane as int),
            proc_side(plane as int, subsampling_x),
            proc_side(plane as int, subsampling_y),
        ),
{
    let procunit_width: i32 = if plane > 0 && subsampling_x {
        RESTORATION_PROC_UNIT_SIZE / 2
    } else {
        RESTORATION_PROC_UNIT_SIZE
    };
    let procunit_height: i32 = if plane > 0 && subsampling_y {
        RESTORATION_PROC_UNIT_SIZE / 2
    } else {
        RESTORATION_PROC_UNIT_SIZE
    };
    proof {
        assert(procunit_width == proc_side(plane as int, subsampling_x));
        assert(procunit_height == proc_side(plane as int, subsampling_y));
    }
    search_selfguided_restoration(
        planes,
        dat_origin,
        width,
        height,
        dat_stride,
        src_origin,
        src_stride,
        procunit_width,
        procunit_height,
        ctrls,
        plane,
        solve,
    )
}

/// Side of the blocks a plane is filtered in.
pub open spec fn proc_side(plane: int, subsampled: bool) -> i32 {
    if plane > 0 && subsampled {
        32
    } else {
        64
    }
}

/// A parameter set is among those a sweep tries.
pub open spec fn on_sweep(e: int, ep: int, end: int, inc: int) -> bool {
    ep <= e < end && (e - ep) % inc == 0
}

proof fn lemma_swept(
    candidates: spec_fn(int) -> Probe,
    ep: int,
    end: int,
    inc: int,
    best: Option<(int, Probe)>,
)
    requires
        inc > 0,
    ensures
        swept(candidates, ep, end, inc, best) is None ==> best is None && ep >= end,
        best is Some ==> (swept(candidates, ep, end, inc, best)->0).1.err <= (best->0).1.err,
        best is Some && swept(candidates, ep, end, inc, best) != best ==> (swept(candidates, ep, end, inc, best)->0).1.err
            < (best->0).1.err,
        swept(candidates, ep, end, inc, best) != best ==> {
            let w = swept(candidates, ep, end, inc, best)->0;
            on_sweep(w.0, ep, end, inc) && w.1 == candidates(w.0)
        },
        forall|e: int| #[trigger]
            on_sweep(e, ep, end, inc) ==> (swept(candidates, ep, end, inc, best)->0).1.err <= candidates(e).err,
        forall|e: int| #[trigger]
            on_sweep(e, ep, end, inc) && swept(candidates, ep, end, inc, best) != best && e < (swept(
                candidates,
                ep,
                end,
                inc,
                best,
            )->0).0 ==> (swept(candidates, ep, end, inc, best)->0).1.err < candidates(e).err,
    decreases max_int(end - ep, 0),
{
    if ep < end {
        let c = candidates(ep);
        let next = if best is None || c.err < (best->0).1.err {
            Some((ep, c))
        } else {
            best
        };
        let r = swept(candidates, ep + inc, end, inc, next);
        lemma_swept(candidates, ep + inc, end, inc, next);
        assert forall|e: int| #[trigger] on_sweep(e, ep, end, inc) implies (r->0).1.err <= candidates(e).err && (r
            != best && e < (r->0).0 ==> (r->0).1.err < candidates(e).err) by {
            if e != ep {
                lemma_mod_sub_multiples_vanish(e - ep, inc);
                if e - ep < inc {
                    lemma_small_mod((e - ep) as nat, inc as nat);
                }
                assert(on_sweep(e, ep + inc, end, inc));
            }
        }
        if r != next {
            let w = r->0;
            lemma_mod_add_multiples_vanish(w.0 - ep - inc, inc);
            assert(on_sweep(w.0, ep, end, inc));
        } else if r != best {
            lemma_small_mod(0, inc as nat);
            assert(on_sweep(ep, ep, end, inc));
        }
    }
}

/// The sweep ends at a set with the least error, and at the first of those.
pub proof fn sweep_finds_the_first_least_error(candidates: spec_fn(int) -> Probe, start: int, end: int, inc: int)
    requires
        inc > 0,
        start < end,
    ensures
        swept(candidates, start, end, inc, None) is Some,
        ({
            let w = swept(candidates, start, end, inc, None)->0;
            &&& on_sweep(w.0, start, end, inc)
            &&& w.1 == candidates(w.0)
            &&& forall|e: int| #[trigger]
                on_sweep(e, start, end, inc) ==> w.1.err <= candidates(e).err && (e < w.0 ==> w.1.err
                    < candidates(e).err)
        }),
{
    lemma_swept(candidates, start, end, inc, None);
}

} // verus!
