//! What coefficients cost and which contexts they are coded in: rates follow
//! probabilities, and contexts follow the neighbours that are coded before.

use vstd::arithmetic::div_mod::lemma_fundamental_div_mod_converse;
use vstd::arithmetic::mul::{lemma_mul_inequality, lemma_mul_is_commutative};
use vstd::arithmetic::power2::{
    lemma2_to64, lemma_pow2_adds, lemma_pow2_pos, lemma_pow2_strictly_increases, lemma_pow2_unfold, pow2,
};
use vstd::prelude::*;

use crate::arith::{abs_int, min_int};
use crate::coeff_costs::{
    are_cost_tables, cdf_rate, is_eob_costs, is_txb_costs, symbol_rate, CoeffCostTables, CoeffFc, PROB_COST,
};
use crate::coeff_ctx::{
    br_ctx, br_ctx_eob_spec, eob_ctx, eob_group, nz_ctx, EOB_GROUP_START, TX_CLASS_2D, TX_CLASS_HORIZ, TX_CLASS_VERT,
    TX_HIGH, TX_WIDE,
};
use crate::quant::{ilog2, lemma_ilog2};
use crate::trellis::TxbCosts;

verus! {

/// Half the probability costs one bit more; an even chance costs one bit.
pub proof fn half_the_probability_costs_a_bit(p: int)
    requires
        0 < p < 16384,
    ensures
        symbol_rate(p) == symbol_rate(2 * p) + 512,
        symbol_rate(16384) == 512,
{
    assert((2 * p) / 2 == p);
    assert(ilog2(2 * p) == 1 + ilog2(p));
    lemma_octave(p);
    let s = (14 - ilog2(p)) as nat;
    lemma_octave(2 * p);
    lemma_pow2_unfold(s);
    let h = pow2((s - 1) as nat) as int;
    assert(p * (2 * h) == (2 * p) * h) by (nonlinear_arith);
    lemma2_to64();
    lemma_octave(16384);
    assert(ilog2(16384) == 14) by {
        let l = ilog2(16384);
        lemma_ilog2(16384);
        if l < 14 {
            if l < 13 {
                lemma_pow2_strictly_increases(l + 1, 14);
            }
        } else if l > 14 {
            lemma_pow2_strictly_increases(14, l);
        }
    }
    assert(PROB_COST[0] == 512);
}

/// Where a probability lies when it is doubled into the upper half.
proof fn lemma_octave(p: int)
    requires
        0 < p < 32768,
    ensures
        ilog2(p) <= 14,
        16384 <= p * pow2((14 - ilog2(p)) as nat) < 32768,
        p < 16384 ==> ilog2(p) <= 13,
{
    let l = ilog2(p);
    lemma_ilog2(p);
    lemma2_to64();
    if l > 14 {
        if l > 15 {
            lemma_pow2_strictly_increases(15, l);
        }
    }
    if p < 16384 && l > 13 {
        if l > 14 {
            lemma_pow2_strictly_increases(14, l);
        }
    }
    let shift = (14 - l) as nat;
    lemma_pow2_adds(shift, l);
    lemma_pow2_adds(shift, l + 1);
    lemma_pow2_pos(shift);
    let s = pow2(shift) as int;
    lemma_mul_inequality(pow2(l) as int, p, s);
    lemma_mul_is_commutative(s, pow2(l) as int);
    lemma_mul_is_commutative(s, pow2(l + 1) as int);
    assert(p * s < pow2(l + 1) * s) by (nonlinear_arith)
        requires
            p < pow2(l + 1),
            s > 0,
    ;
}

proof fn lemma_costs_fall(i: int, j: int)
    requires
        0 <= i <= j < 128,
    ensures
        3 <= PROB_COST[j] <= PROB_COST[i] <= 512,
    decreases j - i,
{
    if i < j {
        lemma_costs_fall(i, j - 1);
        lemma_costs_step(j);
    } else {
        assert(forall|k: int| 0 <= k < 128 ==> 3 <= #[trigger] PROB_COST[k] <= 512);
    }
}

proof fn lemma_costs_step(j: int)
    requires
        1 <= j < 128,
    ensures
        3 <= PROB_COST[j] < PROB_COST[j - 1],
{
}

/// What is likelier costs no more, and no symbol is free.
pub proof fn likelier_symbols_cost_no_more(p: int, q: int)
    requires
        0 < p <= q < 32768,
    ensures
        symbol_rate(q) <= symbol_rate(p),
        0 < symbol_rate(q),
{
    lemma_octave(p);
    lemma_octave(q);
    let (a, b) = (ilog2(p), ilog2(q));
    lemma_ilog2(p);
    lemma_ilog2(q);
    if b < a {
        if b + 1 < a {
            lemma_pow2_strictly_increases(b + 1, a);
        }
    }
    let (s, t) = (pow2((14 - a) as nat) as int, pow2((14 - b) as nat) as int);
    let x = min_int(((p * s) * 256 + 16384) / 32768, 255) - 128;
    let y = min_int(((q * t) * 256 + 16384) / 32768, 255) - 128;
    lemma_costs_fall(0, y);
    lemma_costs_fall(0, x);
    lemma_costs_fall(x, 127);
    if a == b {
        lemma_mul_inequality(p, q, s);
        lemma_costs_fall(x, y);
    }
}

/// From an even chance on a symbol costs what the table holds for the nearest
/// of its 128 probabilities, in 1/256; beyond the last one, what it holds for
/// that.
pub proof fn rates_are_looked_up_at_the_nearest(p: int)
    requires
        16384 <= p < 32768,
    ensures
        exists|i: int|
            128 <= i <= 255 && #[trigger] PROB_COST[i - 128] == symbol_rate(p) && (p >= 32704 && i == 255 || 128 * i - 64
                <= p < 128 * i + 64),
{
    lemma_octave(p);
    lemma2_to64();
    assert(ilog2(p) == 14) by {
        lemma_ilog2(p);
        let l = ilog2(p);
        if l < 13 {
            lemma_pow2_strictly_increases(l + 1, 14);
        }
    }
    let i = min_int((p * 1 * 256 + 16384) / 32768, 255);
    assert(PROB_COST[i - 128] == symbol_rate(p));
}

/// The symbols of a distribution are priced by their share: the one that takes
/// more of what is left costs no more.
pub proof fn larger_shares_cost_no_more(cdf: Seq<u16>, s: int)
    requires
        0 < s < cdf.len(),
        cdf[0] < 32768,
        cdf[s] < cdf[s - 1] <= cdf[0],
    ensures
        cdf_rate(cdf, 0) <= cdf_rate(cdf, s) <==> symbol_rate(
            if 32768 - cdf[0] >= 4 {
                32768 - cdf[0]
            } else {
                4
            },
        ) <= symbol_rate(
            if cdf[s - 1] - cdf[s] >= 4 {
                cdf[s - 1] - cdf[s]
            } else {
                4
            },
        ),
        0 < cdf[0] && cdf[s - 1] - cdf[s] <= 32768 - cdf[0] ==> cdf_rate(cdf, 0) <= cdf_rate(cdf, s),
{
    if 0 < cdf[0] && cdf[s - 1] - cdf[s] <= 32768 - cdf[0] {
        let p: int = if cdf[s - 1] - cdf[s] >= 4 {
            cdf[s - 1] - cdf[s]
        } else {
            4
        };
        let q: int = if 32768 - cdf[0] >= 4 {
            32768 - cdf[0]
        } else {
            4
        };
        likelier_symbols_cost_no_more(p, q);
    }
}

/// Beside the rates of the levels stand the savings of lowering each by one,
/// for level one with its sign; and a range level three higher costs one
/// escape more.
pub proof fn savings_stand_beside_rates(c: TxbCosts, fc: CoeffFc, txs: int, plane: int, ctx: int, br: int, i: int)
    requires
        is_txb_costs(c, fc, txs, plane),
        0 <= ctx < 42,
        0 <= br < 21,
        1 <= i <= 12,
    ensures
        c.base_cost[ctx][4] == 0,
        c.base_cost[ctx][5] == c.base_cost[ctx][1] - c.base_cost[ctx][0] + 512,
        c.base_cost[ctx][6] == c.base_cost[ctx][2] - c.base_cost[ctx][1],
        c.base_cost[ctx][7] == c.base_cost[ctx][3] - c.base_cost[ctx][2],
        c.lps_cost[br][13] == c.lps_cost[br][0],
        c.lps_cost[br][13 + i] == c.lps_cost[br][i] - c.lps_cost[br][i - 1],
        i <= 8 ==> 4 * (c.lps_cost[br][i + 3] - c.lps_cost[br][i]) == c.lps_cost[br][12],
        4 * (c.lps_cost[br][3] - c.lps_cost[br][0]) == c.lps_cost[br][12],
{
    assert(forall|s: int| 0 <= s < 8 ==> #[trigger] c.base_cost[ctx][s] == crate::coeff_costs::base_rate(
        fc.coeff_base_cdf@[(txs * 2 + plane) * 42 + ctx]@,
        s,
    ));
    let t = fc.coeff_br_cdf@[(min_int(txs, 3) * 2 + plane) * 21 + br]@;
    assert(forall|s: int| 0 <= s < 26 ==> #[trigger] c.lps_cost[br][s] == crate::coeff_costs::lps_entry(t, s));
    let e = cdf_rate(t, 3);
    if i <= 8 {
        assert((i + 3) / 3 == i / 3 + 1 && (i + 3) % 3 == i % 3);
        assert((i / 3 + 1) * e == (i / 3) * e + e) by (nonlinear_arith);
    }
    assert(3int / 3 == 1 && 3int % 3 == 0);
    assert(0int / 3 == 0);
}

/// The group of an end position is the number of bits of the position before
/// it, and one more: it holds the positions past one power of two up to the
/// next, and starts right past it.
pub proof fn end_groups_are_octaves(eob: int)
    requires
        1 <= eob <= 1024,
    ensures
        eob_group(eob) == 1 <==> eob == 1,
        eob >= 2 ==> {
            &&& eob_group(eob) >= 2
            &&& pow2((eob_group(eob) - 2) as nat) < eob <= pow2((eob_group(eob) - 1) as nat)
            &&& EOB_GROUP_START[eob_group(eob)] == pow2((eob_group(eob) - 2) as nat) + 1
        },
{
    lemma2_to64();
}

/// The last coefficient's context grows with how far it is: none at the first
/// place, then the first eighth of the block, the first quarter, the rest.
pub proof fn far_ends_have_higher_contexts(w: int, h: int, si: int)
    requires
        4 <= w,
        4 <= h,
        0 <= si,
    ensures
        eob_ctx(w, h, si) == 0 <==> si == 0,
        eob_ctx(w, h, si) <= 1 <==> 8 * si <= w * h || si == 0,
        eob_ctx(w, h, si) <= 2 <==> 4 * si <= w * h,
        0 <= eob_ctx(w, h, si) <= 3,
{
    let n = w * h;
    assert(n >= 16) by (nonlinear_arith)
        requires
            n == w * h,
            w >= 4,
            h >= 4,
    ;
}

/// A magnitude, up to a cap.
pub open spec fn capped(x: i32, cap: int) -> int {
    if abs_int(x as int) <= cap {
        abs_int(x as int)
    } else {
        cap
    }
}

proof fn lemma_inside(w: int, h: int, row: int, col: int, dr: int, dc: int)
    requires
        4 <= w,
        0 <= row,
        0 <= col,
        0 <= dr,
        0 <= dc,
        col + dc < w,
        row + dr < h,
    ensures
        (row * w + col) / w == row,
        (row * w + col) % w == col,
        (row + dr) * w + (col + dc) == (row * w + col) + dr * w + dc,
{
    lemma_fundamental_div_mod_converse(row * w + col, w, row, col);
    assert((row + dr) * w == row * w + dr * w) by (nonlinear_arith);
}

/// The base context of a coefficient inside a block is set by five neighbours
/// that are coded before it, to the right and below, each counted up to three:
/// half their sum, rounded up, at most four, above an offset by position.
pub proof fn base_contexts_follow_neighbours(q: Seq<i32>, w: int, h: int, row: int, col: int, tx: int)
    requires
        4 <= w,
        4 <= h,
        0 <= row < h - 4,
        0 <= col < w - 4,
        row + col > 0,
        0 <= tx < 19,
    ensures
        ({
            let i = row * w + col;
            let near = capped(q[i + 1], 3) + capped(q[i + w], 3);
            let both = near + capped(q[i + w + 1], 3) + capped(q[i + 2], 3) + capped(q[i + 2 * w], 3);
            let across = near + capped(q[i + 2], 3) + capped(q[i + 3], 3) + capped(q[i + 4], 3);
            let down = near + capped(q[i + 2 * w], 3) + capped(q[i + 3 * w], 3) + capped(q[i + 4 * w], 3);
            let (wide, high) = (TX_WIDE[tx] as int, TX_HIGH[tx] as int);
            let place: int = if wide < high && row <= 1 {
                11
            } else if wide > high && col <= 1 {
                16
            } else if row + col <= 1 {
                1
            } else if row + col <= 3 {
                6
            } else {
                21
            };
            &&& nz_ctx(q, w, h, i, tx, TX_CLASS_2D as int) - place == (if both >= 8 {
                4
            } else {
                (both + 1) / 2
            })
            &&& nz_ctx(q, w, h, i, tx, TX_CLASS_HORIZ as int) - (if across >= 8 {
                4
            } else {
                (across + 1) / 2
            }) == (if col == 0 {
                26int
            } else if col == 1 {
                31
            } else {
                36
            })
            &&& nz_ctx(q, w, h, i, tx, TX_CLASS_VERT as int) - (if down >= 8 {
                4
            } else {
                (down + 1) / 2
            }) == (if row == 0 {
                26int
            } else if row == 1 {
                31
            } else {
                36
            })
        }),
{
    let i = row * w + col;
    lemma_inside(w, h, row, col, 0, 1);
    lemma_inside(w, h, row, col, 0, 2);
    lemma_inside(w, h, row, col, 0, 3);
    lemma_inside(w, h, row, col, 0, 4);
    lemma_inside(w, h, row, col, 1, 0);
    lemma_inside(w, h, row, col, 2, 0);
    lemma_inside(w, h, row, col, 3, 0);
    lemma_inside(w, h, row, col, 4, 0);
    lemma_inside(w, h, row, col, 1, 1);
    assert(i > 0) by (nonlinear_arith)
        requires
            i == row * w + col,
            row >= 0,
            col >= 0,
            row + col > 0,
            w >= 4,
    ;
}

/// The range context of a coefficient inside a block is half the sum of three
/// neighbours that are coded before it, rounded up, at most six, above an
/// offset by position: zero at the first place, seven by the start, fourteen
/// beyond. The last coefficient has the offset alone.
pub proof fn range_contexts_follow_neighbours(q: Seq<i32>, w: int, h: int, row: int, col: int)
    requires
        4 <= w,
        4 <= h,
        0 <= row < h - 2,
        0 <= col < w - 2,
    ensures
        ({
            let i = row * w + col;
            let near = capped(q[i + 1], 127) + capped(q[i + w], 127);
            let (both, across, down) = (
                near + capped(q[i + w + 1], 127),
                near + capped(q[i + 2], 127),
                near + capped(q[i + 2 * w], 127),
            );
            &&& br_ctx(q, w, h, i, TX_CLASS_2D as int) == (if both >= 12 {
                6
            } else {
                (both + 1) / 2
            }) + br_ctx_eob_spec(w, i, TX_CLASS_2D as int)
            &&& br_ctx(q, w, h, i, TX_CLASS_HORIZ as int) == (if across >= 12 {
                6
            } else {
                (across + 1) / 2
            }) + br_ctx_eob_spec(w, i, TX_CLASS_HORIZ as int)
            &&& br_ctx(q, w, h, i, TX_CLASS_VERT as int) == (if down >= 12 {
                6
            } else {
                (down + 1) / 2
            }) + br_ctx_eob_spec(w, i, TX_CLASS_VERT as int)
            &&& br_ctx_eob_spec(w, i, TX_CLASS_2D as int) == (if row == 0 && col == 0 {
                0int
            } else if row <= 1 && col <= 1 {
                7
            } else {
                14
            })
            &&& br_ctx_eob_spec(w, i, TX_CLASS_HORIZ as int) == (if row == 0 && col == 0 {
                0int
            } else if col == 0 {
                7
            } else {
                14
            })
            &&& br_ctx_eob_spec(w, i, TX_CLASS_VERT as int) == (if row == 0 && col == 0 {
                0int
            } else if row == 0 {
                7
            } else {
                14
            })
        }),
{
    let i = row * w + col;
    lemma_inside(w, h, row, col, 0, 1);
    lemma_inside(w, h, row, col, 0, 2);
    lemma_inside(w, h, row, col, 1, 0);
    lemma_inside(w, h, row, col, 2, 0);
    lemma_inside(w, h, row, col, 1, 1);
    assert(i == 0 <==> row == 0 && col == 0) by (nonlinear_arith)
        requires
            i == row * w + col,
            row >= 0,
            col >= 0,
            w >= 4,
    ;
}

/// Tables stand by size and plane: each context of each has its own
/// distribution, ranges of the largest size go by the one below it, and the
/// larger a block, the larger the distribution of its ends.
pub proof fn tables_stand_by_size_and_plane(t: CoeffCostTables, fc: CoeffFc, size: int, plane: int, ctx: int, s: int)
    requires
        are_cost_tables(t, fc),
        0 <= plane < 2,
        0 <= ctx,
        0 <= s,
    ensures
        0 <= size < 5 ==> {
            let c = t.txb@[2 * size + plane];
            let i = 2 * size + plane;
            &&& ctx < 13 && s < 2 ==> c.txb_skip_cost[ctx][s] == cdf_rate(fc.txb_skip_cdf@[13 * size + ctx]@, s)
            &&& ctx < 4 && s < 3 ==> c.base_eob_cost[ctx][s] == cdf_rate(fc.coeff_base_eob_cdf@[4 * i + ctx]@, s)
            &&& ctx < 42 && s < 4 ==> c.base_cost[ctx][s] == cdf_rate(fc.coeff_base_cdf@[42 * i + ctx]@, s)
            &&& ctx < 9 && s < 2 ==> c.eob_extra_cost[ctx][s] == cdf_rate(fc.eob_extra_cdf@[9 * i + ctx]@, s)
            &&& ctx < 3 && s < 2 ==> c.dc_sign_cost[ctx][s] == cdf_rate(fc.dc_sign_cdf@[3 * plane + ctx]@, s)
            &&& ctx < 21 && s < 3 ==> c.lps_cost[ctx][s] == cdf_rate(
                fc.coeff_br_cdf@[21 * (if size == 4 {
                    6 + plane
                } else {
                    i
                }) + ctx]@,
                s,
            )
        },
        ctx < 2 && s < 11 ==> {
            &&& t.eob@[0 + plane].eob_cost[ctx][s] == cdf_rate(fc.eob_flag_cdf16@[2 * plane + ctx]@, s)
            &&& t.eob@[2 + plane].eob_cost[ctx][s] == cdf_rate(fc.eob_flag_cdf32@[2 * plane + ctx]@, s)
            &&& t.eob@[4 + plane].eob_cost[ctx][s] == cdf_rate(fc.eob_flag_cdf64@[2 * plane + ctx]@, s)
            &&& t.eob@[6 + plane].eob_cost[ctx][s] == cdf_rate(fc.eob_flag_cdf128@[2 * plane + ctx]@, s)
            &&& t.eob@[8 + plane].eob_cost[ctx][s] == cdf_rate(fc.eob_flag_cdf256@[2 * plane + ctx]@, s)
            &&& t.eob@[10 + plane].eob_cost[ctx][s] == cdf_rate(fc.eob_flag_cdf512@[2 * plane + ctx]@, s)
            &&& t.eob@[12 + plane].eob_cost[ctx][s] == cdf_rate(fc.eob_flag_cdf1024@[2 * plane + ctx]@, s)
        },
{
    if 0 <= size < 5 {
        let i = 2 * size + plane;
        assert(i / 2 == size && i % 2 == plane);
        assert(is_txb_costs(t.txb@[i], fc, i / 2, i % 2));
        if ctx < 21 && s < 3 {
            assert(s / 3 == 0 && s % 3 == s);
            assert(t.txb@[i].lps_cost[ctx][s] == crate::coeff_costs::lps_entry(
                fc.coeff_br_cdf@[(min_int(size, 3) * 2 + plane) * 21 + ctx]@,
                s,
            ));
            let e = cdf_rate(fc.coeff_br_cdf@[(min_int(size, 3) * 2 + plane) * 21 + ctx]@, 3);
            assert((s / 3) * e == 0) by (nonlinear_arith)
                requires
                    s / 3 == 0,
            ;
        }
    }
    if ctx < 2 && s < 11 {
        assert forall|k: int| 0 <= k < 7 implies #[trigger] is_eob_costs(
            t.eob@[2 * k + plane],
            crate::coeff_costs::eob_flag_table(fc, k),
            plane,
        ) by {
            let i = 2 * k + plane;
            assert(i / 2 == k && i % 2 == plane);
            assert(is_eob_costs(t.eob@[i], crate::coeff_costs::eob_flag_table(fc, i / 2), i % 2));
        }
        assert(is_eob_costs(t.eob@[2 * 0 + plane], crate::coeff_costs::eob_flag_table(fc, 0), plane));
        assert(is_eob_costs(t.eob@[2 * 1 + plane], crate::coeff_costs::eob_flag_table(fc, 1), plane));
        assert(is_eob_costs(t.eob@[2 * 2 + plane], crate::coeff_costs::eob_flag_table(fc, 2), plane));
        assert(is_eob_costs(t.eob@[2 * 3 + plane], crate::coeff_costs::eob_flag_table(fc, 3), plane));
        assert(is_eob_costs(t.eob@[2 * 4 + plane], crate::coeff_costs::eob_flag_table(fc, 4), plane));
        assert(is_eob_costs(t.eob@[2 * 5 + plane], crate::coeff_costs::eob_flag_table(fc, 5), plane));
        assert(is_eob_costs(t.eob@[2 * 6 + plane], crate::coeff_costs::eob_flag_table(fc, 6), plane));
    }
}

} // verus!
