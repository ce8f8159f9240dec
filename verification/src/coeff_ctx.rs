//! Entropy-coding contexts of a quantized transform block.
//!
//! A context is a function of the magnitudes around a coefficient. The model
//! reads them straight from the coefficient raster; the executable side keeps
//! a zero-padded magnitude map so that no neighbour needs a bounds test.

use vstd::arithmetic::div_mod::{lemma_fundamental_div_mod, lemma_fundamental_div_mod_converse};
use vstd::prelude::*;

use crate::arith::{abs_i32, abs_int, min_int};

verus! {

/// Two-dimensional transforms.
pub const TX_CLASS_2D: usize = 0;

/// Horizontal one-dimensional transforms.
pub const TX_CLASS_HORIZ: usize = 1;

/// Vertical one-dimensional transforms.
pub const TX_CLASS_VERT: usize = 2;

/// Number of transform sizes.
pub const TX_SIZES_ALL: usize = 19;

/// Transform widths in samples, by transform size.
pub const TX_WIDE: [usize; 19] = [4, 8, 16, 32, 64, 4, 8, 8, 16, 16, 32, 32, 64, 4, 16, 8, 32, 16, 64];

/// Transform heights in samples, by transform size.
pub const TX_HIGH: [usize; 19] = [4, 8, 16, 32, 64, 8, 4, 16, 8, 32, 16, 64, 32, 16, 4, 32, 8, 64, 16];

/// Entropy context of a transform size: the mean of the square sizes inside
/// and around it, rounded up.
pub const TXSIZE_ENTROPY_CTX: [usize; 19] = [0, 1, 2, 3, 4, 1, 1, 2, 2, 3, 3, 4, 4, 1, 1, 2, 2, 3, 3];

/// `log2` of the coded coefficient count, less four.
pub const TXSIZE_LOG2_MINUS4: [usize; 19] = [0, 2, 4, 6, 6, 1, 1, 3, 3, 5, 5, 6, 6, 2, 2, 4, 4, 5, 5];

/// Padding, in magnitudes, to the right of every row and below the last one.
pub const TX_PAD: usize = 4;

/// Coded width: at most 32 columns of a transform carry coefficients.
pub open spec fn txb_wide_spec(tx_size: int) -> int {
    min_int(TX_WIDE[tx_size] as int, 32)
}

/// Coded height: at most 32 rows of a transform carry coefficients.
pub open spec fn txb_high_spec(tx_size: int) -> int {
    min_int(TX_HIGH[tx_size] as int, 32)
}

/// The coded dimensions are between 4 and 32.
pub proof fn lemma_txb_dims(tx_size: int)
    requires
        0 <= tx_size < 19,
    ensures
        4 <= txb_wide_spec(tx_size) <= 32,
        4 <= txb_high_spec(tx_size) <= 32,
        16 <= txb_wide_spec(tx_size) * txb_high_spec(tx_size) <= 1024,
{
    let w = txb_wide_spec(tx_size);
    let h = txb_high_spec(tx_size);
    assert(16 <= w * h <= 1024) by (nonlinear_arith)
        requires
            4 <= w <= 32,
            4 <= h <= 32,
    ;
}

/// Coded width of a transform block.
pub fn txb_wide(tx_size: usize) -> (r: usize)
    requires
        tx_size < 19,
    ensures
        r == txb_wide_spec(tx_size as int),
        4 <= r <= 32,
{
    if TX_WIDE[tx_size] > 32 {
        32
    } else {
        TX_WIDE[tx_size]
    }
}

/// Coded height of a transform block.
pub fn txb_high(tx_size: usize) -> (r: usize)
    requires
        tx_size < 19,
    ensures
        r == txb_high_spec(tx_size as int),
        4 <= r <= 32,
{
    if TX_HIGH[tx_size] > 32 {
        32
    } else {
        TX_HIGH[tx_size]
    }
}

/// Magnitude of the coefficient at `(row, col)`, capped at 127; zero outside
/// the coded rectangle.
pub open spec fn level_at(q: Seq<i32>, w: int, h: int, row: int, col: int) -> int {
    if 0 <= row < h && 0 <= col < w {
        min_int(abs_int(q[row * w + col] as int), 127)
    } else {
        0
    }
}

/// The five-neighbour magnitude sum that selects a base context, each
/// neighbour counted up to three.
pub open spec fn nz_mag(q: Seq<i32>, w: int, h: int, ci: int, tx_class: int) -> int {
    let row = ci / w;
    let col = ci % w;
    let near = min_int(level_at(q, w, h, row, col + 1), 3) + min_int(level_at(q, w, h, row + 1, col), 3);
    if tx_class == TX_CLASS_2D {
        near + min_int(level_at(q, w, h, row + 1, col + 1), 3) + min_int(
            level_at(q, w, h, row, col + 2),
            3,
        ) + min_int(level_at(q, w, h, row + 2, col), 3)
    } else if tx_class == TX_CLASS_HORIZ {
        near + min_int(level_at(q, w, h, row, col + 2), 3) + min_int(level_at(q, w, h, row, col + 3), 3)
            + min_int(level_at(q, w, h, row, col + 4), 3)
    } else {
        near + min_int(level_at(q, w, h, row + 2, col), 3) + min_int(level_at(q, w, h, row + 3, col), 3)
            + min_int(level_at(q, w, h, row + 4, col), 3)
    }
}

/// Offset of the base context by position, for two-dimensional transforms.
/// Wide and tall transforms have rows of contexts of their own.
pub open spec fn nz_offset_2d(tx_wide: int, tx_high: int, row: int, col: int) -> int {
    if tx_wide < tx_high && row < 2 {
        11
    } else if tx_wide > tx_high && col < 2 {
        16
    } else if row + col < 2 {
        1
    } else if row + col < 4 {
        6
    } else {
        21
    }
}

/// Offset of the base context along the transformed direction, for
/// one-dimensional transforms.
pub open spec fn nz_offset_1d(d: int) -> int {
    26 + 5 * min_int(d, 2)
}

/// Base context of a coefficient that is not the last one.
pub open spec fn nz_ctx(q: Seq<i32>, w: int, h: int, ci: int, tx_size: int, tx_class: int) -> int {
    let mag = min_int((nz_mag(q, w, h, ci, tx_class) + 1) / 2, 4);
    if tx_class == TX_CLASS_2D {
        if ci == 0 {
            0
        } else {
            mag + nz_offset_2d(TX_WIDE[tx_size] as int, TX_HIGH[tx_size] as int, ci / w, ci % w)
        }
    } else if tx_class == TX_CLASS_HORIZ {
        mag + nz_offset_1d(ci % w)
    } else {
        mag + nz_offset_1d(ci / w)
    }
}

/// Base context of the last coefficient, by its scan position.
pub open spec fn eob_ctx(w: int, h: int, si: int) -> int {
    if si == 0 {
        0
    } else if si <= w * h / 8 {
        1
    } else if si <= w * h / 4 {
        2
    } else {
        3
    }
}

/// Range context of a coefficient that is not the last one.
pub open spec fn br_ctx(q: Seq<i32>, w: int, h: int, ci: int, tx_class: int) -> int {
    let row = ci / w;
    let col = ci % w;
    let near = level_at(q, w, h, row, col + 1) + level_at(q, w, h, row + 1, col);
    let far = if tx_class == TX_CLASS_2D {
        level_at(q, w, h, row + 1, col + 1)
    } else if tx_class == TX_CLASS_HORIZ {
        level_at(q, w, h, row, col + 2)
    } else {
        level_at(q, w, h, row + 2, col)
    };
    min_int((near + far + 1) / 2, 6) + br_ctx_eob_spec(w, ci, tx_class)
}

/// Range context of the last coefficient: its position class alone.
pub open spec fn br_ctx_eob_spec(w: int, ci: int, tx_class: int) -> int {
    let row = ci / w;
    let col = ci % w;
    if ci == 0 {
        0
    } else if (tx_class == TX_CLASS_2D && row < 2 && col < 2) || (tx_class == TX_CLASS_HORIZ && col
        == 0) || (tx_class == TX_CLASS_VERT && row == 0) {
        7
    } else {
        14
    }
}

/// Where `(row, col)` lies in the padded map of a `w`-wide block.
pub open spec fn padded_pos(w: int, row: int, col: int) -> int {
    row * (w + TX_PAD) + col
}

/// `levels` is the padded magnitude map of `q`.
pub open spec fn levels_match(levels: Seq<u8>, q: Seq<i32>, w: int, h: int) -> bool {
    &&& levels.len() == (h + TX_PAD) * (w + TX_PAD)
    &&& forall|row: int, col: int|
        0 <= row < h + TX_PAD && 0 <= col < w + TX_PAD ==> (#[trigger] levels[padded_pos(w, row, col)])
            == level_at(q, w, h, row, col)
}

proof fn lemma_padded_bound(w: int, h: int, row: int, col: int)
    requires
        4 <= w,
        4 <= h,
        0 <= row < h + TX_PAD,
        0 <= col < w + TX_PAD,
    ensures
        0 <= padded_pos(w, row, col) < (h + TX_PAD) * (w + TX_PAD),
{
    assert(0 <= row * (w + 4) + col < (h + 4) * (w + 4)) by (nonlinear_arith)
        requires
            4 <= w,
            0 <= row < h + 4,
            0 <= col < w + 4,
    ;
}

proof fn lemma_padded_unique(w: int, row: int, col: int)
    requires
        4 <= w,
        0 <= col < w + TX_PAD,
    ensures
        padded_pos(w, row, col) / (w + TX_PAD) == row,
        padded_pos(w, row, col) % (w + TX_PAD) == col,
{
    lemma_fundamental_div_mod_converse(padded_pos(w, row, col), w + TX_PAD, row, col);
}

/// Row and column of a raster index inside a `w` by `h` block.
pub proof fn lemma_raster(w: int, h: int, ci: int)
    requires
        4 <= w,
        0 <= ci < w * h,
    ensures
        0 <= ci / w < h,
        0 <= ci % w < w,
        ci == (ci / w) * w + ci % w,
{
    lemma_fundamental_div_mod(ci, w);
    let row = ci / w;
    assert(row < h) by (nonlinear_arith)
        requires
            ci == w * row + ci % w,
            0 <= ci % w,
            ci < w * h,
            4 <= w,
    ;
    assert(0 <= row) by (nonlinear_arith)
        requires
            row == ci / w,
            0 <= ci,
            4 <= w,
    ;
    assert(w * row == row * w) by (nonlinear_arith);
}

/// Reads the padded map at `(row, col)`.
fn level(levels: &[u8], q: Ghost<Seq<i32>>, w: usize, h: usize, row: usize, col: usize) -> (r: u32)
    requires
        4 <= w <= 32,
        4 <= h <= 32,
        row < h + TX_PAD,
        col < w + TX_PAD,
        levels_match(levels@, q@, w as int, h as int),
    ensures
        r == level_at(q@, w as int, h as int, row as int, col as int),
        r <= 127,
{
    proof {
        lemma_padded_bound(w as int, h as int, row as int, col as int);
        assert((h + 4) * (w + 4) <= 36 * 36) by (nonlinear_arith)
            requires
                4 <= w <= 32,
                4 <= h <= 32,
        ;
        assert(row * (w + 4) >= 0) by (nonlinear_arith)
            requires
                0 <= row,
                0 <= w,
        ;
        assert(levels@[padded_pos(w as int, row as int, col as int)] == level_at(
            q@,
            w as int,
            h as int,
            row as int,
            col as int,
        ));
    }
    levels[row * (w + TX_PAD) + col] as u32
}

fn capped3(x: u32) -> (r: u32)
    ensures
        r == min_int(x as int, 3),
{
    if x <= 3 {
        x
    } else {
        3
    }
}

/// Stores the magnitude of the coefficient at raster index `ci`.
pub fn set_level(levels: &mut [u8], q: Ghost<Seq<i32>>, ci: usize, value: i32, w: usize, h: usize)
    requires
        4 <= w <= 32,
        4 <= h <= 32,
        ci < w * h,
        q@.len() >= w * h,
        value > i32::MIN,
        levels_match(old(levels)@, q@, w as int, h as int),
    ensures
        levels_match(final(levels)@, q@.update(ci as int, value), w as int, h as int),
{
    let row: usize = ci / w;
    let col: usize = ci % w;
    let mag: i32 = abs_i32(value);
    let capped: u8 = if mag > 127 {
        127
    } else {
        mag as u8
    };
    proof {
        lemma_raster(w as int, h as int, ci as int);
        lemma_padded_bound(w as int, h as int, row as int, col as int);
        assert((h + 4) * (w + 4) <= 36 * 36) by (nonlinear_arith)
            requires
                4 <= w <= 32,
                4 <= h <= 32,
        ;
        assert(row * (w + 4) >= 0) by (nonlinear_arith)
            requires
                0 <= row,
                0 <= w,
        ;
    }
    let ghost before = levels@;
    levels[row * (w + TX_PAD) + col] = capped;
    proof {
        let q2 = q@.update(ci as int, value);
        assert forall|r: int, c: int| 0 <= r < h + TX_PAD && 0 <= c < w + TX_PAD implies (
        #[trigger] levels@[padded_pos(w as int, r, c)]) == level_at(q2, w as int, h as int, r, c) by {
            lemma_padded_bound(w as int, h as int, r, c);
            lemma_padded_unique(w as int, r, c);
            lemma_padded_unique(w as int, row as int, col as int);
            assert(before[padded_pos(w as int, r, c)] == level_at(q@, w as int, h as int, r, c));
            if r < h && c < w {
                lemma_fundamental_div_mod_converse(r * w + c, w as int, r, c);
                assert(0 <= r * w + c < w * h) by (nonlinear_arith)
                    requires
                        0 <= r < h,
                        0 <= c < w,
                ;
                assert(r * w + c == ci <==> r == row && c == col);
            }
            if padded_pos(w as int, r, c) == padded_pos(w as int, row as int, col as int) {
                assert(r == row && c == col);
            }
        }
    }
}

/// Builds the padded magnitude map of a coefficient raster.
pub fn txb_init_levels(qcoeff: &[i32], w: usize, h: usize) -> (levels: Vec<u8>)
    requires
        4 <= w <= 32,
        4 <= h <= 32,
        qcoeff@.len() >= w * h,
        forall|i: int| 0 <= i < w * h ==> #[trigger] qcoeff@[i] > i32::MIN,
    ensures
        levels_match(levels@, qcoeff@, w as int, h as int),
{
    let mut levels: Vec<u8> = Vec::new();
    let rows: usize = h + TX_PAD;
    let cols: usize = w + TX_PAD;
    let mut row: usize = 0;
    while row < rows
        invariant
            4 <= w <= 32,
            4 <= h <= 32,
            rows == h + TX_PAD,
            cols == w + TX_PAD,
            row <= rows,
            qcoeff@.len() >= w * h,
            forall|i: int| 0 <= i < w * h ==> #[trigger] qcoeff@[i] > i32::MIN,
            levels@.len() == row * cols,
            forall|r: int, c: int|
                0 <= r < row && 0 <= c < cols ==> (#[trigger] levels@[padded_pos(w as int, r, c)])
                    == level_at(qcoeff@, w as int, h as int, r, c),
        decreases rows - row,
    {
        let mut col: usize = 0;
        while col < cols
            invariant
                4 <= w <= 32,
                4 <= h <= 32,
                rows == h + TX_PAD,
                cols == w + TX_PAD,
                row < rows,
                col <= cols,
                qcoeff@.len() >= w * h,
                forall|i: int| 0 <= i < w * h ==> #[trigger] qcoeff@[i] > i32::MIN,
                levels@.len() == row * cols + col,
                forall|r: int, c: int|
                    (0 <= r < row && 0 <= c < cols) || (r == row && 0 <= c < col) ==> (
                    #[trigger] levels@[padded_pos(w as int, r, c)]) == level_at(
                        qcoeff@,
                        w as int,
                        h as int,
                        r,
                        c,
                    ),
            decreases cols - col,
        {
            let v: u8 = if row < h && col < w {
                proof {
                    assert(0 <= row * w + col < w * h) by (nonlinear_arith)
                        requires
                            0 <= row < h,
                            0 <= col < w,
                    ;
                    assert(w * h <= 32 * 32) by (nonlinear_arith)
                        requires
                            4 <= w <= 32,
                            4 <= h <= 32,
                    ;
                    assert(row * w >= 0) by (nonlinear_arith)
                        requires
                            0 <= row,
                            0 <= w,
                    ;
                }
                let mag: i32 = abs_i32(qcoeff[row * w + col]);
                if mag > 127 {
                    127
                } else {
                    mag as u8
                }
            } else {
                0
            };
            let ghost before = levels@;
            levels.push(v);
            proof {
                assert(padded_pos(w as int, row as int, col as int) == before.len());
                assert forall|r: int, c: int|
                    (0 <= r < row && 0 <= c < cols) || (r == row && 0 <= c < col + 1) implies (
                #[trigger] levels@[padded_pos(w as int, r, c)]) == level_at(
                    qcoeff@,
                    w as int,
                    h as int,
                    r,
                    c,
                ) by {
                    if r < row {
                        assert(0 <= r * (w + 4) + c < row * (w + 4)) by (nonlinear_arith)
                            requires
                                0 <= r < row,
                                0 <= c < w + 4,
                                4 <= w,
                        ;
                        assert(levels@[padded_pos(w as int, r, c)] == before[padded_pos(
                            w as int,
                            r,
                            c,
                        )]);
                    } else if c < col {
                        assert(row * (w + 4) >= 0) by (nonlinear_arith)
                            requires
                                0 <= row,
                                0 <= w,
                        ;
                        assert(levels@[padded_pos(w as int, r, c)] == before[padded_pos(
                            w as int,
                            r,
                            c,
                        )]);
                    }
                }
            }
            col += 1;
        }
        proof {
            assert(row * cols + cols == (row + 1) * cols) by (nonlinear_arith);
        }
        row += 1;
    }
    levels
}

/// Base context of the coefficient at raster index `ci`, scan index `si`.
pub fn lower_levels_ctx_general(
    levels: &[u8],
    q: Ghost<Seq<i32>>,
    ci: usize,
    w: usize,
    h: usize,
    si: usize,
    is_last: bool,
    tx_size: usize,
    tx_class: usize,
) -> (r: usize)
    requires
        tx_size < 19,
        w == txb_wide_spec(tx_size as int),
        h == txb_high_spec(tx_size as int),
        ci < w * h,
        levels_match(levels@, q@, w as int, h as int),
    ensures
        is_last ==> r == eob_ctx(w as int, h as int, si as int),
        !is_last ==> r == nz_ctx(q@, w as int, h as int, ci as int, tx_size as int, tx_class as int),
        is_last ==> r < 4,
        r < 42,
{
    proof {
        lemma_txb_dims(tx_size as int);
    }
    if is_last {
        if si == 0 {
            0
        } else if si <= w * h / 8 {
            1
        } else if si <= w * h / 4 {
            2
        } else {
            3
        }
    } else {
        proof {
            lemma_raster(w as int, h as int, ci as int);
        }
        let row: usize = ci / w;
        let col: usize = ci % w;
        let near: u32 = capped3(level(levels, q, w, h, row, col + 1)) + capped3(
            level(levels, q, w, h, row + 1, col),
        );
        let mag: u32 = if tx_class == TX_CLASS_2D {
            near + capped3(level(levels, q, w, h, row + 1, col + 1)) + capped3(
                level(levels, q, w, h, row, col + 2),
            ) + capped3(level(levels, q, w, h, row + 2, col))
        } else if tx_class == TX_CLASS_HORIZ {
            near + capped3(level(levels, q, w, h, row, col + 2)) + capped3(
                level(levels, q, w, h, row, col + 3),
            ) + capped3(level(levels, q, w, h, row, col + 4))
        } else {
            near + capped3(level(levels, q, w, h, row + 2, col)) + capped3(
                level(levels, q, w, h, row + 3, col),
            ) + capped3(level(levels, q, w, h, row + 4, col))
        };
        let half: u32 = (mag + 1) / 2;
        let ctx: usize = if half <= 4 {
            half as usize
        } else {
            4
        };
        if tx_class == TX_CLASS_2D {
            if ci == 0 {
                0
            } else {
                let tw: usize = TX_WIDE[tx_size];
                let th: usize = TX_HIGH[tx_size];
                if tw < th && row < 2 {
                    ctx + 11
                } else if tw > th && col < 2 {
                    ctx + 16
                } else if row + col < 2 {
                    ctx + 1
                } else if row + col < 4 {
                    ctx + 6
                } else {
                    ctx + 21
                }
            }
        } else {
            let d: usize = if tx_class == TX_CLASS_HORIZ {
                col
            } else {
                row
            };
            let step: usize = if d < 2 {
                d
            } else {
                2
            };
            ctx + 26 + 5 * step
        }
    }
}

/// Range context of the coefficient at raster index `ci`.
pub fn br_ctx_at(
    levels: &[u8],
    q: Ghost<Seq<i32>>,
    ci: usize,
    w: usize,
    h: usize,
    tx_class: usize,
) -> (r: usize)
    requires
        4 <= w <= 32,
        4 <= h <= 32,
        ci < w * h,
        levels_match(levels@, q@, w as int, h as int),
    ensures
        r == br_ctx(q@, w as int, h as int, ci as int, tx_class as int),
        r < 21,
{
    proof {
        lemma_raster(w as int, h as int, ci as int);
    }
    let row: usize = ci / w;
    let col: usize = ci % w;
    let near: u32 = level(levels, q, w, h, row, col + 1) + level(levels, q, w, h, row + 1, col);
    let far: u32 = if tx_class == TX_CLASS_2D {
        level(levels, q, w, h, row + 1, col + 1)
    } else if tx_class == TX_CLASS_HORIZ {
        level(levels, q, w, h, row, col + 2)
    } else {
        level(levels, q, w, h, row + 2, col)
    };
    let half: u32 = (near + far + 1) / 2;
    let ctx: usize = if half <= 6 {
        half as usize
    } else {
        6
    };
    ctx + br_ctx_eob(ci, w, tx_class)
}

/// Range context of the last coefficient.
pub fn br_ctx_eob(ci: usize, w: usize, tx_class: usize) -> (r: usize)
    requires
        w > 0,
    ensures
        r == br_ctx_eob_spec(w as int, ci as int, tx_class as int),
        r <= 14,
{
    let row: usize = ci / w;
    let col: usize = ci % w;
    if ci == 0 {
        0
    } else if (tx_class == TX_CLASS_2D && row < 2 && col < 2) || (tx_class == TX_CLASS_HORIZ && col
        == 0) || (tx_class == TX_CLASS_VERT && row == 0) {
        7
    } else {
        14
    }
}

/// Group of an end-of-block position: group `t` holds the positions
/// `2^(t-2) < eob <= 2^(t-1)`, with groups 1 and 2 holding one position each.
pub open spec fn eob_group(eob: int) -> int {
    if eob <= 1 {
        1
    } else if eob <= 2 {
        2
    } else if eob <= 4 {
        3
    } else if eob <= 8 {
        4
    } else if eob <= 16 {
        5
    } else if eob <= 32 {
        6
    } else if eob <= 64 {
        7
    } else if eob <= 128 {
        8
    } else if eob <= 256 {
        9
    } else if eob <= 512 {
        10
    } else {
        11
    }
}

/// First position of each group.
pub const EOB_GROUP_START: [i32; 12] = [0, 1, 2, 3, 5, 9, 17, 33, 65, 129, 257, 513];

/// The group of an end-of-block position and the offset inside it.
pub fn eob_pos_token(eob: i32) -> (r: (usize, i32))
    requires
        1 <= eob <= 1024,
    ensures
        r.0 == eob_group(eob as int),
        1 <= r.0 <= 11,
        r.1 == eob - EOB_GROUP_START[r.0 as int],
        0 <= r.1 < 512,
{
    let t: usize = if eob <= 1 {
        1
    } else if eob <= 2 {
        2
    } else if eob <= 4 {
        3
    } else if eob <= 8 {
        4
    } else if eob <= 16 {
        5
    } else if eob <= 32 {
        6
    } else if eob <= 64 {
        7
    } else if eob <= 128 {
        8
    } else if eob <= 256 {
        9
    } else if eob <= 512 {
        10
    } else {
        11
    };
    (t, eob - EOB_GROUP_START[t])
}

} // verus!
