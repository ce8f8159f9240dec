//! The gradients of a picture, summed over tiles.

use vstd::arithmetic::mul::{lemma_mul_inequality, lemma_mul_is_commutative, lemma_mul_nonnegative};
use vstd::prelude::*;

use crate::arith::{lemma_raster_bounds, lemma_raster_index, min_int, total};
use crate::raster::{inside, lemma_next_row};

verus! {

/// Sums of products of the horizontal and the vertical gradient over a tile.
#[derive(Debug, Clone, Copy, PartialEq, Eq, Structural)]
pub struct TileGradient {
    pub xx: i64,
    pub yy: i64,
    pub xy: i64,
}

/// Horizontal gradient: the difference of the neighbours.
pub open spec fn grad_x(src: Seq<u8>, stride: int, y: int, x: int) -> int {
    src[y * stride + x + 1] - src[y * stride + x - 1]
}

/// Vertical gradient.
pub open spec fn grad_y(src: Seq<u8>, stride: int, y: int, x: int) -> int {
    src[(y + 1) * stride + x] - src[(y - 1) * stride + x]
}

/// A tile: where it starts and how large it is.
pub struct Tile {
    pub y: int,
    pub x: int,
    pub h: int,
    pub w: int,
}

/// Number of tiles along `n` samples, the first and last of which have no
/// gradient.
pub open spec fn tiles_along(n: int) -> int {
    if n < 3 {
        0
    } else {
        (n + 13) / 16
    }
}

/// A tile of sixteen by sixteen samples, cut at the picture's edge.
pub open spec fn tile_at(width: int, height: int, r: int, c: int) -> Tile {
    let y = 1 + 16 * r;
    let x = 1 + 16 * c;
    Tile { y, x, h: min_int(16, height - 1 - y), w: min_int(16, width - 1 - x) }
}

/// Squared horizontal gradients of a tile.
pub open spec fn xx_terms(src: Seq<u8>, stride: int, t: Tile) -> spec_fn(int) -> int {
    |i: int| grad_x(src, stride, t.y + i / t.w, t.x + i % t.w) * grad_x(src, stride, t.y + i / t.w, t.x + i % t.w)
}

/// Squared vertical gradients of a tile.
pub open spec fn yy_terms(src: Seq<u8>, stride: int, t: Tile) -> spec_fn(int) -> int {
    |i: int| grad_y(src, stride, t.y + i / t.w, t.x + i % t.w) * grad_y(src, stride, t.y + i / t.w, t.x + i % t.w)
}

/// Products of the gradients of a tile.
pub open spec fn xy_terms(src: Seq<u8>, stride: int, t: Tile) -> spec_fn(int) -> int {
    |i: int| grad_x(src, stride, t.y + i / t.w, t.x + i % t.w) * grad_y(src, stride, t.y + i / t.w, t.x + i % t.w)
}

/// `g` holds the sums of a tile.
pub open spec fn is_tile_gradient(g: TileGradient, src: Seq<u8>, stride: int, t: Tile) -> bool {
    &&& g.xx == total(xx_terms(src, stride, t), t.w * t.h)
    &&& g.yy == total(yy_terms(src, stride, t), t.w * t.h)
    &&& g.xy == total(xy_terms(src, stride, t), t.w * t.h)
}

fn tile_gradient(src: &[u8], stride: usize, width: usize, height: usize, r: usize, c: usize) -> (g: TileGradient)
    requires
        inside(src@.len() as int, 0, stride as int, width as int, height as int),
        r < tiles_along(height as int),
        c < tiles_along(width as int),
    ensures
        is_tile_gradient(
            g,
            src@,
            stride as int,
            tile_at(width as int, height as int, r as int, c as int),
        ),
{
    let ghost t = tile_at(width as int, height as int, r as int, c as int);
    let len: usize = src.len();
    let y0: usize = 1 + 16 * r;
    let x0: usize = 1 + 16 * c;
    let h: usize = if 16 < height - 1 - y0 {
        16
    } else {
        height - 1 - y0
    };
    let w: usize = if 16 < width - 1 - x0 {
        16
    } else {
        width - 1 - x0
    };
    let ghost fxx = xx_terms(src@, stride as int, t);
    let ghost fyy = yy_terms(src@, stride as int, t);
    let ghost fxy = xy_terms(src@, stride as int, t);
    let mut xx: i64 = 0;
    let mut yy: i64 = 0;
    let mut xy: i64 = 0;
    let mut i: usize = 0;
    while i < h
        invariant
            i <= h,
            1 <= w <= 16,
            1 <= h <= 16,
            t.y == y0,
            t.x == x0,
            t.w == w,
            t.h == h,
            1 <= y0,
            1 <= x0,
            y0 + h < height,
            x0 + w < width,
            len == src@.len(),
            inside(len as int, 0, stride as int, width as int, height as int),
            fxx == xx_terms(src@, stride as int, t),
            fyy == yy_terms(src@, stride as int, t),
            fxy == xy_terms(src@, stride as int, t),
            xx == total(fxx, i * w),
            yy == total(fyy, i * w),
            xy == total(fxy, i * w),
            0 <= xx <= 65025 * (16 * i),
            0 <= yy <= 65025 * (16 * i),
            -65025 * (16 * i) <= xy <= 65025 * (16 * i),
        decreases h - i,
    {
        let mut j: usize = 0;
        while j < w
            invariant
                i < h,
                j <= w,
                1 <= w <= 16,
                1 <= h <= 16,
                t.y == y0,
                t.x == x0,
                t.w == w,
                t.h == h,
                1 <= y0,
                1 <= x0,
                y0 + h < height,
                x0 + w < width,
                len == src@.len(),
                inside(len as int, 0, stride as int, width as int, height as int),
                fxx == xx_terms(src@, stride as int, t),
                fyy == yy_terms(src@, stride as int, t),
                fxy == xy_terms(src@, stride as int, t),
                xx == total(fxx, i * w + j),
                yy == total(fyy, i * w + j),
                xy == total(fxy, i * w + j),
                0 <= xx <= 65025 * (16 * i + j),
                0 <= yy <= 65025 * (16 * i + j),
                -65025 * (16 * i + j) <= xy <= 65025 * (16 * i + j),
            decreases w - j,
        {
            let y: usize = y0 + i;
            let x: usize = x0 + j;
            proof {
                lemma_raster_index(i as int, j as int, w as int);
                lemma_raster_bounds(i as int, j as int, w as int, h as int);
                lemma_mul_inequality(y + 1, height - 1, stride as int);
                lemma_mul_inequality(y as int, height - 1, stride as int);
                lemma_mul_inequality(y - 1, height - 1, stride as int);
                lemma_mul_nonnegative(y + 1, stride as int);
                lemma_mul_nonnegative(y as int, stride as int);
                lemma_mul_nonnegative(y - 1, stride as int);
            }
            let gx: i64 = src[y * stride + x + 1] as i64 - src[y * stride + x - 1] as i64;
            let gy: i64 = src[(y + 1) * stride + x] as i64 - src[(y - 1) * stride + x] as i64;
            proof {
                assert(0 <= gx * gx <= 65025) by (nonlinear_arith)
                    requires
                        -255 <= gx <= 255,
                ;
                assert(0 <= gy * gy <= 65025) by (nonlinear_arith)
                    requires
                        -255 <= gy <= 255,
                ;
                assert(-65025 <= gx * gy <= 65025) by (nonlinear_arith)
                    requires
                        -255 <= gx <= 255,
                        -255 <= gy <= 255,
                ;
                let k = i * w + j;
                assert(fxx(k) == gx * gx);
                assert(fyy(k) == gy * gy);
                assert(fxy(k) == gx * gy);
            }
            xx = xx + gx * gx;
            yy = yy + gy * gy;
            xy = xy + gx * gy;
            j = j + 1;
        }
        proof {
            lemma_next_row(i as int, w as int);
        }
        i = i + 1;
    }
    proof {
        lemma_mul_is_commutative(w as int, h as int);
    }
    TileGradient { xx, yy, xy }
}

/// The gradients of a picture, tile by tile. A picture without inner samples
/// has no tiles.
pub fn gradient_tiles(src: &[u8], width: usize, height: usize, stride: usize) -> (tiles: Vec<TileGradient>)
    requires
        inside(src@.len() as int, 0, stride as int, width as int, height as int),
        width <= usize::MAX - 13,
        height <= usize::MAX - 13,
    ensures
        tiles@.len() == tiles_along(height as int) * tiles_along(width as int),
        forall|k: int|
            0 <= k < tiles@.len() ==> is_tile_gradient(
                #[trigger] tiles@[k],
                src@,
                stride as int,
                tile_at(
                    width as int,
                    height as int,
                    k / tiles_along(width as int),
                    k % tiles_along(width as int),
                ),
            ),
{
    let rows: usize = if height < 3 {
        0
    } else {
        (height + 13) / 16
    };
    let cols: usize = if width < 3 {
        0
    } else {
        (width + 13) / 16
    };
    let mut tiles: Vec<TileGradient> = Vec::new();
    let mut r: usize = 0;
    proof {
        assert(0 * (cols as int) == 0) by (nonlinear_arith);
    }
    while r < rows
        invariant
            r <= rows,
            rows == tiles_along(height as int),
            cols == tiles_along(width as int),
            inside(src@.len() as int, 0, stride as int, width as int, height as int),
            tiles@.len() == r * cols,
            forall|k: int|
                0 <= k < tiles@.len() ==> is_tile_gradient(
                    #[trigger] tiles@[k],
                    src@,
                    stride as int,
                    tile_at(width as int, height as int, k / (cols as int), k % (cols as int)),
                ),
        decreases rows - r,
    {
        let mut c: usize = 0;
        while c < cols
            invariant
                r < rows,
                c <= cols,
                rows == tiles_along(height as int),
                cols == tiles_along(width as int),
                inside(src@.len() as int, 0, stride as int, width as int, height as int),
                tiles@.len() == r * cols + c,
                forall|k: int|
                    0 <= k < tiles@.len() ==> is_tile_gradient(
                        #[trigger] tiles@[k],
                        src@,
                        stride as int,
                        tile_at(width as int, height as int, k / (cols as int), k % (cols as int)),
                    ),
            decreases cols - c,
        {
            let g: TileGradient = tile_gradient(src, stride, width, height, r, c);
            proof {
                lemma_raster_index(r as int, c as int, cols as int);
            }
            tiles.push(g);
            c = c + 1;
        }
        proof {
            lemma_next_row(r as int, cols as int);
        }
        r = r + 1;
    }
    tiles
}

} // verus!
