//! Rate-distortion optimization of a quantized transform block.
//!
//! The walk visits the coefficients from the last one back to DC and, at each,
//! keeps the level or lowers it by one, whichever costs less. Near the end of
//! the block it also considers moving the end of the block forward, and
//! dropping the block altogether.

use vstd::arithmetic::div_mod::{
    lemma_div_basics, lemma_div_is_ordered, lemma_div_is_ordered_by_denominator, lemma_div_pos_is_pos,
};
use vstd::arithmetic::mul::{
    lemma_mul_basics, lemma_mul_cancels_negatives, lemma_mul_inequality, lemma_mul_nonnegative,
    lemma_mul_unary_negation, lemma_mul_upper_bound,
};
use vstd::arithmetic::power2::{lemma2_to64, lemma_pow2_pos, lemma_pow2_strictly_increases, pow2};
use vstd::prelude::*;

use crate::arith::{abs_i32, abs_int, max_int, min_int, pow2_i64, shr_i64};
use crate::coeff_ctx::{
    br_ctx, br_ctx_at, br_ctx_eob, br_ctx_eob_spec, eob_ctx, eob_group, eob_pos_token, lemma_txb_dims,
    levels_match, lower_levels_ctx_general, nz_ctx, set_level, txb_high, txb_high_spec, txb_init_levels,
    txb_wide, txb_wide_spec, EOB_GROUP_START, TX_CLASS_2D,
};
use crate::qm::dqv_qm;
use crate::quant::{
    floor_log2, ilog2, inverse_weight_at, lemma_ilog2, matrix_view, reconstructed, weighted_step, with_sign,
    QuantTable, TX_SCALE_TAB,
};

verus! {

/// Contexts of the block-is-empty flag.
pub const TXB_SKIP_CONTEXTS: usize = 13;

/// Base contexts of the last coefficient.
pub const SIG_COEF_CONTEXTS_EOB: usize = 4;

/// Base contexts of the other coefficients.
pub const SIG_COEF_CONTEXTS: usize = 42;

/// Contexts of the first end-of-block offset bit.
pub const EOB_COEF_CONTEXTS: usize = 9;

/// Contexts of the DC sign.
pub const DC_SIGN_CONTEXTS: usize = 3;

/// Range contexts.
pub const LEVEL_CONTEXTS: usize = 21;

/// Coefficient rates of one transform-size context and plane type, in 1/512
/// bit.
#[derive(Clone, Copy)]
pub struct TxbCosts {
    /// Rate of a nonempty and of an empty block.
    pub txb_skip_cost: [[i32; 2]; 13],
    /// Rates of the last coefficient's base levels 1, 2 and 3 or more.
    pub base_eob_cost: [[i32; 3]; 4],
    /// Rates of the base levels 0 to 3 or more, then the saving of lowering
    /// each of them by one.
    pub base_cost: [[i32; 8]; 42],
    /// Rate of the first end-of-block offset bit.
    pub eob_extra_cost: [[i32; 2]; 9],
    /// Rate of the DC sign.
    pub dc_sign_cost: [[i32; 2]; 3],
    /// Rates of the range levels 0 to 12, then the saving of lowering each
    /// of them by one.
    pub lps_cost: [[i32; 26]; 21],
}

/// End-of-block group rates of one block size class and plane type.
#[derive(Clone, Copy)]
pub struct EobCosts {
    /// One row per transform class: two-dimensional, then one-dimensional.
    pub eob_cost: [[i32; 11]; 2],
}

/// Bound on every table entry, in 1/512 bit.
pub const COST_LIMIT: i32 = 0x8000;

/// Every rate is below the bound.
pub open spec fn txb_costs_wf(c: TxbCosts) -> bool {
    &&& forall|i: int, j: int|
        0 <= i < 13 && 0 <= j < 2 ==> -COST_LIMIT <= #[trigger] c.txb_skip_cost[i][j] <= COST_LIMIT
    &&& forall|i: int, j: int|
        0 <= i < 4 && 0 <= j < 3 ==> -COST_LIMIT <= #[trigger] c.base_eob_cost[i][j] <= COST_LIMIT
    &&& forall|i: int, j: int|
        0 <= i < 42 && 0 <= j < 8 ==> -COST_LIMIT <= #[trigger] c.base_cost[i][j] <= COST_LIMIT
    &&& forall|i: int, j: int|
        0 <= i < 9 && 0 <= j < 2 ==> -COST_LIMIT <= #[trigger] c.eob_extra_cost[i][j] <= COST_LIMIT
    &&& forall|i: int, j: int|
        0 <= i < 3 && 0 <= j < 2 ==> -COST_LIMIT <= #[trigger] c.dc_sign_cost[i][j] <= COST_LIMIT
    &&& forall|i: int, j: int|
        0 <= i < 21 && 0 <= j < 26 ==> -COST_LIMIT <= #[trigger] c.lps_cost[i][j] <= COST_LIMIT
}

/// Every rate is below the bound.
pub open spec fn eob_costs_wf(c: EobCosts) -> bool {
    forall|i: int, j: int|
        0 <= i < 2 && 0 <= j < 11 ==> -COST_LIMIT <= #[trigger] c.eob_cost[i][j] <= COST_LIMIT
}

/// What the optimization needs beyond the coefficient buffers.
#[derive(Clone, Copy)]
pub struct OptimizeCtx<'a> {
    pub txb_costs: &'a TxbCosts,
    pub eob_costs: &'a EobCosts,
    /// Rate multiplier.
    pub rdmult: i64,
    /// Transform size.
    pub tx_size: usize,
    /// Transform class.
    pub tx_class: usize,
    pub txb_skip_ctx: usize,
    pub dc_sign_ctx: usize,
    /// Keeps the end of the block where it is.
    pub sharpness_flag: bool,
    /// Inverse matrix weights, where a matrix applies.
    pub iwt: Option<&'a [u8]>,
    /// Share of the block that is optimized, as a fraction; a zero numerator
    /// means all of it.
    pub cut_off_num: u32,
    pub cut_off_denum: u32,
}

/// Rate of `n` raw bits.
pub open spec fn literal_rate(n: int) -> int {
    512 * n
}

/// Rate of the Golomb-coded excess of a level over 14.
pub open spec fn golomb_rate(level: int) -> int {
    if level >= 15 {
        literal_rate(2 * (ilog2(level - 14) + 1) - 1)
    } else {
        0
    }
}

/// Rate of the range part of a level above 2.
pub open spec fn range_rate(level: int, lps: Seq<i32>) -> int {
    lps[min_int(level - 3, 12)] + golomb_rate(level)
}

/// What lowering a level above 2 by one saves in the range part.
pub open spec fn range_saving(level: int, lps: Seq<i32>) -> int {
    (if level <= 15 {
        lps[min_int(level - 3, 12) + 13] as int
    } else {
        0
    }) + (golomb_rate(level) - golomb_rate(level - 1))
}

/// Rate of an end-of-block position.
pub open spec fn eob_rate(eob: int, eob_costs: EobCosts, txb_costs: TxbCosts, tx_class: int) -> int {
    let t = eob_group(eob);
    let extra = eob - EOB_GROUP_START[t];
    let row: int = if tx_class == TX_CLASS_2D {
        0
    } else {
        1
    };
    let head = eob_costs.eob_cost[row][t - 1] as int;
    if t > 2 {
        let n = t - 3;
        head + txb_costs.eob_extra_cost[n][(extra / (pow2(n as nat) as int)) % 2] + literal_rate(n)
    } else {
        head
    }
}

/// Cost of a rate and a distortion: `round(rate * rdmult / 512) + 128 * dist`.
pub open spec fn rd_cost(rdmult: int, rate: int, dist: int) -> int {
    (rate * rdmult + 256) / 512 + dist * 128
}

/// Squared error of a reconstruction, in the transform's own scale.
pub open spec fn coeff_dist(t: int, d: int, shift: nat) -> int {
    let e = (t - d) * pow2(shift);
    e * e
}

/// The read-only surroundings of a walk.
#[derive(Clone, Copy)]
pub struct TrellisEnv<'a> {
    pub o: &'a OptimizeCtx<'a>,
    pub dequant: &'a [i32; 2],
    pub scan: &'a [u16],
    pub tcoeff: &'a [i32],
}

impl<'a> TrellisEnv<'a> {
    /// Coded width.
    pub open spec fn w(self) -> int {
        txb_wide_spec(self.o.tx_size as int)
    }

    /// Coded height.
    pub open spec fn h(self) -> int {
        txb_high_spec(self.o.tx_size as int)
    }

    /// Scale of the transform size.
    pub open spec fn shift(self) -> nat {
        TX_SCALE_TAB[self.o.tx_size as int] as nat
    }

    /// Step size at a raster position.
    pub open spec fn step(self, ci: int) -> int {
        weighted_step(self.dequant@, ci, inverse_weight_at(matrix_view(self.o.iwt), ci))
    }

    /// Reconstruction of a level magnitude at a raster position.
    pub open spec fn recon(self, ci: int, level: int) -> int {
        reconstructed(level, self.step(ci), self.shift())
    }

    /// Base context at a scan position.
    pub open spec fn base_ctx(self, q: Seq<i32>, si: int, is_last: bool) -> int {
        if is_last {
            eob_ctx(self.w(), self.h(), si)
        } else {
            nz_ctx(
                q,
                self.w(),
                self.h(),
                self.scan@[si] as int,
                self.o.tx_size as int,
                self.o.tx_class as int,
            )
        }
    }

    /// Range context at a raster position.
    pub open spec fn range_ctx(self, q: Seq<i32>, ci: int, is_last: bool) -> int {
        if is_last {
            br_ctx_eob_spec(self.w(), ci, self.o.tx_class as int)
        } else {
            br_ctx(q, self.w(), self.h(), ci, self.o.tx_class as int)
        }
    }

    /// Rate of coding the level magnitude `level` with the sign of `like` at
    /// a scan position.
    pub open spec fn level_rate(self, q: Seq<i32>, si: int, level: int, like: int, is_last: bool) -> int {
        let ci = self.scan@[si] as int;
        let c = self.o.txb_costs;
        let ctx = self.base_ctx(q, si, is_last);
        let base = if is_last {
            c.base_eob_cost[ctx][min_int(level, 3) - 1] as int
        } else {
            c.base_cost[ctx][min_int(level, 3)] as int
        };
        let sign = if level == 0 {
            0
        } else if ci == 0 {
            c.dc_sign_cost[self.o.dc_sign_ctx as int][if like < 0 {
                1int
            } else {
                0int
            }] as int
        } else {
            literal_rate(1)
        };
        let range = if level > 2 {
            range_rate(level, c.lps_cost[self.range_ctx(q, ci, is_last)]@)
        } else {
            0
        };
        base + sign + range
    }

    /// Rate of a zero at a scan position.
    pub open spec fn zero_rate(self, q: Seq<i32>, si: int, is_last: bool) -> int {
        self.o.txb_costs.base_cost[self.base_ctx(q, si, is_last)][0] as int
    }

    /// Rate of the next lower level at a scan position.
    pub open spec fn lower_rate(self, q: Seq<i32>, si: int, level: int, like: int, is_last: bool) -> int {
        if level == 1 {
            self.zero_rate(q, si, is_last)
        } else {
            self.level_rate(q, si, level - 1, like, is_last)
        }
    }

    /// Change of the distortion, against coding a zero, when the coefficient
    /// at a raster position reconstructs to `d`.
    pub open spec fn dist_gain(self, ci: int, d: int) -> int {
        coeff_dist(self.tcoeff@[ci] as int, d, self.shift()) - coeff_dist(
            self.tcoeff@[ci] as int,
            0,
            self.shift(),
        )
    }

    /// Cost under the context's multiplier.
    pub open spec fn cost(self, rate: int, dist: int) -> int {
        rd_cost(self.o.rdmult as int, rate, dist)
    }

    /// Inputs a walk is defined on: tables below their bound, coefficients
    /// within 20 bits, a scan that stays inside the block.
    pub open spec fn wf(self) -> bool {
        &&& self.o.tx_size < 19
        &&& self.o.txb_skip_ctx < 13
        &&& self.o.dc_sign_ctx < 3
        &&& 0 <= self.o.rdmult <= 0x5_0000_0000
        &&& txb_costs_wf(*self.o.txb_costs)
        &&& eob_costs_wf(*self.o.eob_costs)
        &&& (self.o.cut_off_num != 0 ==> self.o.cut_off_denum != 0 && self.o.cut_off_num <= 0x1f_ffff)
        &&& (forall|i: int| 0 <= i < 2 ==> 0 <= #[trigger] self.dequant@[i] <= 0x8000)
        &&& (self.o.iwt matches Some(m) ==> self.w() * self.h() <= m@.len())
        &&& self.scan@.len() <= 1024
        &&& (forall|i: int|
            0 <= i < self.scan@.len() ==> (#[trigger] self.scan@[i]) < self.w() * self.h())
        &&& self.w() * self.h() <= self.tcoeff@.len()
        &&& (forall|i: int|
            0 <= i < self.tcoeff@.len() ==> -0x8_0000 <= #[trigger] self.tcoeff@[i] <= 0x8_0000)
    }

    /// Buffers a walk is defined on: every reconstruction, present or from a
    /// lowered level, stays within 20 bits.
    pub open spec fn buffers_wf(self, q: Seq<i32>, d: Seq<i32>) -> bool {
        &&& self.w() * self.h() <= q.len()
        &&& self.w() * self.h() <= d.len()
        &&& forall|i: int| 0 <= i < self.w() * self.h() ==> #[trigger] q[i] > i32::MIN
        &&& forall|ci: int|
            0 <= ci < self.w() * self.h() ==> -0x8_0000 <= #[trigger] d[ci] <= 0x8_0000
        &&& forall|ci: int|
            #![trigger q[ci]]
            0 <= ci < self.w() * self.h() ==> self.recon(ci, abs_int(q[ci] as int)) <= 0x8_0000
    }
}

/// State of a walk.
pub struct TrellisState {
    /// Levels.
    pub q: Seq<i32>,
    /// Reconstructions.
    pub d: Seq<i32>,
    /// Rate so far.
    pub rate: int,
    /// Distortion so far, against an empty block.
    pub dist: int,
    /// End of the block.
    pub eob: int,
    /// Raster positions of the nonzero levels seen so far.
    pub nz: Seq<int>,
}

/// The coefficient at `ci` lowered by one.
pub open spec fn lowered(e: TrellisEnv, s: TrellisState, ci: int) -> TrellisState {
    let qc = s.q[ci] as int;
    let low = abs_int(qc) - 1;
    TrellisState {
        q: s.q.update(ci, with_sign(low, qc) as i32),
        d: s.d.update(ci, with_sign(e.recon(ci, low), qc) as i32),
        ..s
    }
}

/// Keeps or lowers one coefficient on its own merits.
pub open spec fn general_step(e: TrellisEnv, s: TrellisState, si: int) -> TrellisState {
    let ci = e.scan@[si] as int;
    let qc = s.q[ci] as int;
    let level = abs_int(qc);
    let is_last = si == s.eob - 1;
    if qc == 0 {
        TrellisState { rate: s.rate + e.zero_rate(s.q, si, is_last), ..s }
    } else {
        let t = e.tcoeff@[ci] as int;
        let d_low = with_sign(e.recon(ci, level - 1), qc);
        let rate = e.level_rate(s.q, si, level, qc, is_last);
        let rate_low = e.lower_rate(s.q, si, level, qc, is_last);
        let dist = coeff_dist(t, s.d[ci] as int, e.shift());
        let dist_low = coeff_dist(t, d_low, e.shift());
        if e.cost(rate_low, dist_low) < e.cost(rate, dist) {
            TrellisState {
                rate: s.rate + rate_low,
                dist: s.dist + e.dist_gain(ci, d_low),
                ..lowered(e, s, ci)
            }
        } else {
            TrellisState { rate: s.rate + rate, dist: s.dist + e.dist_gain(ci, s.d[ci] as int), ..s }
        }
    }
}

/// Saving of lowering a coefficient that is neither DC nor the last one.
pub open spec fn simple_saving(e: TrellisEnv, q: Seq<i32>, si: int, level: int) -> int {
    let ci = e.scan@[si] as int;
    let c = e.o.txb_costs;
    (if level <= 3 {
        c.base_cost[e.base_ctx(q, si, false)][level + 4] as int
    } else {
        0
    }) + (if level > 2 {
        range_saving(level, c.lps_cost[e.range_ctx(q, ci, false)]@)
    } else {
        0
    })
}

/// Rate of a coefficient that is not the last one, priced with a raw sign
/// bit at every position.
pub open spec fn simple_rate(e: TrellisEnv, q: Seq<i32>, si: int, level: int) -> int {
    let ci = e.scan@[si] as int;
    let c = e.o.txb_costs;
    c.base_cost[e.base_ctx(q, si, false)][min_int(level, 3)] + literal_rate(1) + if level > 2 {
        range_rate(level, c.lps_cost[e.range_ctx(q, ci, false)]@)
    } else {
        0
    }
}

/// Keeps or lowers one coefficient, lowering only those that reconstruct to
/// no less than the coefficient they stand for.
pub open spec fn simple_step(e: TrellisEnv, s: TrellisState, si: int) -> TrellisState {
    let ci = e.scan@[si] as int;
    let qc = s.q[ci] as int;
    let level = abs_int(qc);
    if qc == 0 {
        TrellisState { rate: s.rate + e.zero_rate(s.q, si, false), ..s }
    } else {
        let t = abs_int(e.tcoeff@[ci] as int);
        let d = abs_int(s.d[ci] as int);
        let rate = simple_rate(e, s.q, si, level);
        let rate_low = rate - simple_saving(e, s.q, si, level);
        let dist = coeff_dist(t, d, e.shift());
        let dist_low = coeff_dist(t, e.recon(ci, level - 1), e.shift());
        if d >= t && e.cost(rate_low, dist_low) < e.cost(rate, dist) {
            TrellisState { rate: s.rate + rate_low, ..lowered(e, s, ci) }
        } else {
            TrellisState { rate: s.rate + rate, ..s }
        }
    }
}

/// The levels at `nz` cleared.
pub open spec fn cleared(q: Seq<i32>, nz: Seq<int>) -> Seq<i32>
    decreases nz.len(),
{
    if nz.len() == 0 {
        q
    } else {
        cleared(q, nz.drop_last()).update(nz.last(), 0)
    }
}

/// Keeps or lowers one coefficient near the end of the block, and ends the
/// block at it when that costs less than everything beyond it.
pub open spec fn eob_step(e: TrellisEnv, s: TrellisState, si: int) -> TrellisState {
    let ci = e.scan@[si] as int;
    let qc = s.q[ci] as int;
    let level = abs_int(qc);
    if qc == 0 {
        TrellisState { rate: s.rate + e.zero_rate(s.q, si, false), ..s }
    } else {
        let d_low = with_sign(e.recon(ci, level - 1), qc);
        let gain = e.dist_gain(ci, s.d[ci] as int);
        let gain_low = e.dist_gain(ci, d_low);
        let rate = e.level_rate(s.q, si, level, qc, false);
        let rate_low = e.lower_rate(s.q, si, level, qc, false);
        let rd = e.cost(s.rate + rate, s.dist + gain);
        let rd_low = e.cost(s.rate + rate_low, s.dist + gain_low);
        let head = eob_rate(si + 1, *e.o.eob_costs, *e.o.txb_costs, e.o.tx_class as int);
        let last_rate = head + e.level_rate(s.q, si, level, qc, true);
        let last_rate_low = head + e.level_rate(s.q, si, level - 1, qc, true);
        let last_rd = e.cost(last_rate, gain);
        let last_rd_low = e.cost(last_rate_low, gain_low);
        let last_lower = level > 1 && last_rd_low < last_rd;
        let best_last = if last_lower {
            last_rd_low
        } else {
            last_rd
        };
        let stay_lower = rd_low < rd;
        let best_stay = if stay_lower {
            rd_low
        } else {
            rd
        };
        let ends = !e.o.sharpness_flag && best_last < best_stay;
        let lower = if ends {
            last_lower
        } else {
            stay_lower
        };
        let base = if ends {
            TrellisState {
                q: cleared(s.q, s.nz),
                d: cleared(s.d, s.nz),
                rate: if last_lower {
                    last_rate_low
                } else {
                    last_rate
                },
                dist: if last_lower {
                    gain_low
                } else {
                    gain
                },
                eob: si + 1,
                nz: Seq::empty(),
            }
        } else {
            TrellisState {
                rate: s.rate + if stay_lower {
                    rate_low
                } else {
                    rate
                },
                dist: s.dist + if stay_lower {
                    gain_low
                } else {
                    gain
                },
                ..s
            }
        };
        let next = if lower {
            TrellisState {
                q: base.q.update(ci, with_sign(level - 1, qc) as i32),
                d: base.d.update(ci, d_low as i32),
                ..base
            }
        } else {
            base
        };
        if next.q[ci] != 0 {
            TrellisState { nz: next.nz.push(ci), ..next }
        } else {
            next
        }
    }
}

/// Drops the whole block when an empty one costs less.
pub open spec fn skip_step(e: TrellisEnv, s: TrellisState) -> TrellisState {
    let row = e.o.txb_costs.txb_skip_cost[e.o.txb_skip_ctx as int];
    if !e.o.sharpness_flag && e.cost(row[1] as int, 0) < e.cost(s.rate + row[0], s.dist) {
        TrellisState { q: cleared(s.q, s.nz), d: cleared(s.d, s.nz), rate: 0, eob: 0, ..s }
    } else {
        s
    }
}

/// The last coefficient: kept as it is at level 1, else kept or lowered.
pub open spec fn first_step(e: TrellisEnv, q: Seq<i32>, d: Seq<i32>, eob: int) -> TrellisState {
    let si = eob - 1;
    let ci = e.scan@[si] as int;
    let start = TrellisState {
        q,
        d,
        rate: eob_rate(eob, *e.o.eob_costs, *e.o.txb_costs, e.o.tx_class as int),
        dist: 0,
        eob,
        nz: seq![ci],
    };
    if abs_int(q[ci] as int) >= 2 {
        general_step(e, start, si)
    } else {
        TrellisState {
            rate: start.rate + e.level_rate(q, si, 1, q[ci] as int, true),
            dist: e.dist_gain(ci, d[ci] as int),
            ..start
        }
    }
}

/// The end-of-block phase from scan position `si` down: it stops once more
/// than four nonzero levels have been seen. The second component is the scan
/// position it stopped at.
pub open spec fn eob_walk(e: TrellisEnv, s: TrellisState, si: int) -> (TrellisState, int)
    decreases si + 1,
{
    if si < 0 || s.nz.len() > 4 {
        (s, si)
    } else {
        eob_walk(e, eob_step(e, s, si), si - 1)
    }
}

/// The plain phase from scan position `si` down to `si_end`.
pub open spec fn simple_walk(e: TrellisEnv, s: TrellisState, si: int, si_end: int) -> TrellisState
    decreases si - si_end + 1,
{
    if si < si_end {
        s
    } else {
        simple_walk(e, simple_step(e, s, si), si - 1, si_end)
    }
}

/// First scan position the plain phase touches.
pub open spec fn plain_end(e: TrellisEnv, eob: int) -> int {
    if e.o.cut_off_num == 0 {
        1
    } else {
        max_int(
            eob - max_int((e.w() * e.h()) / 128, (eob * e.o.cut_off_num) / (e.o.cut_off_denum as int)),
            1,
        )
    }
}

/// The whole optimization.
pub open spec fn optimized(e: TrellisEnv, q: Seq<i32>, d: Seq<i32>, eob: int) -> TrellisState {
    let (s1, si) = eob_walk(e, first_step(e, q, d, eob), eob - 2);
    let s2 = if si == -1 && s1.nz.len() <= 4 {
        skip_step(e, s1)
    } else {
        s1
    };
    let end = plain_end(e, s2.eob);
    let s3 = simple_walk(e, s2, si, end);
    let rest = if si >= end {
        end - 1
    } else {
        si
    };
    if rest == 0 {
        general_step(e, s3, 0)
    } else {
        s3
    }
}

proof fn lemma_golomb_bound(level: int)
    requires
        0 <= level <= i32::MAX,
    ensures
        0 <= golomb_rate(level) <= 31232,
{
    if level >= 15 {
        lemma_ilog2(level - 14);
        lemma2_to64();
        if ilog2(level - 14) > 30 {
            lemma_pow2_strictly_increases(30, ilog2(level - 14));
            if ilog2(level - 14) > 31 {
                lemma_pow2_strictly_increases(31, ilog2(level - 14));
            }
        }
    }
}

/// Rate of the Golomb-coded excess of a level over 14.
pub fn golomb_cost(abs_qc: i32) -> (r: i32)
    requires
        0 <= abs_qc,
    ensures
        r == golomb_rate(abs_qc as int),
        0 <= r <= 31232,
{
    proof {
        lemma_golomb_bound(abs_qc as int);
    }
    if abs_qc >= 15 {
        let length: u32 = floor_log2((abs_qc - 14) as u32) + 1;
        512 * (2 * (length as i32) - 1)
    } else {
        0
    }
}

/// Rate of the range part of a level above 2.
fn br_cost(level: i32, lps: &[i32; 26]) -> (r: i32)
    requires
        3 <= level,
        forall|j: int| 0 <= j < 26 ==> -COST_LIMIT <= #[trigger] lps@[j] <= COST_LIMIT,
    ensures
        r == range_rate(level as int, lps@),
        -0x8000 <= r <= 0x1_0000,
{
    let i: usize = if level - 3 <= 12 {
        (level - 3) as usize
    } else {
        12
    };
    lps[i] + golomb_cost(level)
}

/// What lowering a level above 2 saves in the range part.
fn br_cost_diff(level: i32, lps: &[i32; 26]) -> (r: i32)
    requires
        3 <= level,
        forall|j: int| 0 <= j < 26 ==> -COST_LIMIT <= #[trigger] lps@[j] <= COST_LIMIT,
    ensures
        r == range_saving(level as int, lps@),
        -0x1_0000 <= r <= 0x1_0000,
{
    let golomb: i32 = golomb_cost(level) - golomb_cost(level - 1);
    if level <= 15 {
        let i: usize = if level - 3 <= 12 {
            (level - 3) as usize
        } else {
            12
        };
        lps[i + 13] + golomb
    } else {
        golomb
    }
}

/// Rate of an end-of-block position.
pub fn eob_cost(eob: i32, eob_costs: &EobCosts, txb_costs: &TxbCosts, tx_class: usize) -> (r: i32)
    requires
        1 <= eob <= 1024,
        eob_costs_wf(*eob_costs),
        txb_costs_wf(*txb_costs),
    ensures
        r == eob_rate(eob as int, *eob_costs, *txb_costs, tx_class as int),
        -0x2_0000 <= r <= 0x2_0000,
{
    let (eob_pt, eob_extra) = eob_pos_token(eob);
    let row: usize = if tx_class == TX_CLASS_2D {
        0
    } else {
        1
    };
    let head: i32 = eob_costs.eob_cost[row][eob_pt - 1];
    assert(-COST_LIMIT <= eob_costs.eob_cost[row as int][eob_pt - 1] <= COST_LIMIT);
    if eob_pt > 2 {
        let n: usize = eob_pt - 3;
        let p: i64 = pow2_i64(n as u32);
        let bit: usize = (((eob_extra as i64) / p) % 2) as usize;
        assert(-COST_LIMIT <= txb_costs.eob_extra_cost[n as int][bit as int] <= COST_LIMIT);
        head + txb_costs.eob_extra_cost[n][bit] + 512 * (n as i32)
    } else {
        head
    }
}

/// Cost of a rate and a distortion.
fn rdcost(rdmult: i64, rate: i64, dist: i64) -> (r: i64)
    requires
        0 <= rdmult <= 0x5_0000_0000,
        -0x1020_0000 <= rate <= 0x1020_0000,
        -0x50_0000_0000_0000 <= dist <= 0x50_0000_0000_0000,
    ensures
        r == rd_cost(rdmult as int, rate as int, dist as int),
{
    proof {
        lemma_signed_product(rate as int, rdmult as int, 0x1020_0000, 0x5_0000_0000);
        lemma2_to64();
    }
    shr_i64(rate * rdmult + 256, 9) + dist * 128
}

proof fn lemma_signed_product(x: int, y: int, bx: int, by: int)
    requires
        -bx <= x <= bx,
        0 <= y <= by,
    ensures
        -(bx * by) <= x * y <= bx * by,
{
    if x >= 0 {
        lemma_mul_upper_bound(x, bx, y, by);
        lemma_mul_nonnegative(x, y);
        lemma_mul_nonnegative(bx, by);
    } else {
        lemma_mul_upper_bound(-x, bx, y, by);
        lemma_mul_nonnegative(-x, y);
        lemma_mul_nonnegative(bx, by);
        lemma_mul_unary_negation(x, y);
    }
}

/// Squared error of a reconstruction.
fn get_coeff_dist(t: i32, d: i32, shift: u32) -> (r: i64)
    requires
        -0x8_0000 <= t <= 0x8_0000,
        -0x8_0000 <= d <= 0x8_0000,
        shift <= 2,
    ensures
        r == coeff_dist(t as int, d as int, shift as nat),
        0 <= r <= 0x1000_0000_0000,
{
    proof {
        lemma2_to64();
        let p = pow2(shift as nat) as int;
        assert(1 <= p <= 4) by {
            assert(shift == 0 || shift == 1 || shift == 2);
        }
        lemma_signed_product(t - d, p, 0x10_0000, 4);
        let x = (t - d) * p;
        if x >= 0 {
            lemma_mul_upper_bound(x, 0x40_0000, x, 0x40_0000);
            lemma_mul_nonnegative(x, x);
        } else {
            lemma_mul_upper_bound(-x, 0x40_0000, -x, 0x40_0000);
            lemma_mul_nonnegative(-x, -x);
            lemma_mul_cancels_negatives(x, x);
        }
    }
    let e: i64 = (t as i64 - d as i64) * pow2_i64(shift);
    e * e
}

impl<'a> TrellisEnv<'a> {
    proof fn lemma_shift(self)
        requires
            self.wf(),
        ensures
            self.shift() <= 2,
            self.shift() == TX_SCALE_TAB[self.o.tx_size as int],
    {
    }

    /// Base context at a scan position.
    fn ctx_at(&self, levels: &[u8], q: Ghost<Seq<i32>>, si: usize, is_last: bool) -> (r: usize)
        requires
            self.wf(),
            si < self.scan@.len(),
            levels_match(levels@, q@, self.w(), self.h()),
        ensures
            r == self.base_ctx(q@, si as int, is_last),
            r < 42,
            is_last ==> r < 4,
    {
        let w: usize = txb_wide(self.o.tx_size);
        let h: usize = txb_high(self.o.tx_size);
        lower_levels_ctx_general(
            levels,
            q,
            self.scan[si] as usize,
            w,
            h,
            si,
            is_last,
            self.o.tx_size,
            self.o.tx_class,
        )
    }

    /// Range context at a raster position.
    fn br_at(&self, levels: &[u8], q: Ghost<Seq<i32>>, ci: usize, is_last: bool) -> (r: usize)
        requires
            self.wf(),
            ci < self.w() * self.h(),
            levels_match(levels@, q@, self.w(), self.h()),
        ensures
            r == self.range_ctx(q@, ci as int, is_last),
            r < 21,
    {
        let w: usize = txb_wide(self.o.tx_size);
        let h: usize = txb_high(self.o.tx_size);
        if is_last {
            br_ctx_eob(ci, w, self.o.tx_class)
        } else {
            br_ctx_at(levels, q, ci, w, h, self.o.tx_class)
        }
    }

    /// Rate of a level at a scan position.
    fn coeff_cost_general(
        &self,
        levels: &[u8],
        q: Ghost<Seq<i32>>,
        si: usize,
        abs_qc: i32,
        negative: bool,
        is_last: bool,
        coeff_ctx: usize,
        like: Ghost<int>,
    ) -> (r: i32)
        requires
            self.wf(),
            si < self.scan@.len(),
            levels_match(levels@, q@, self.w(), self.h()),
            0 <= abs_qc,
            is_last ==> abs_qc >= 1,
            negative <==> like@ < 0,
            coeff_ctx == self.base_ctx(q@, si as int, is_last),
            coeff_ctx < 42,
            is_last ==> coeff_ctx < 4,
        ensures
            r == self.level_rate(q@, si as int, abs_qc as int, like@, is_last),
            -0x2_0000 <= r <= 0x2_0000,
    {
        let ci: usize = self.scan[si] as usize;
        let c: &TxbCosts = self.o.txb_costs;
        let capped: usize = if abs_qc <= 3 {
            abs_qc as usize
        } else {
            3
        };
        let base: i32 = if is_last {
            assert(-COST_LIMIT <= c.base_eob_cost[coeff_ctx as int][capped - 1] <= COST_LIMIT);
            c.base_eob_cost[coeff_ctx][capped - 1]
        } else {
            assert(-COST_LIMIT <= c.base_cost[coeff_ctx as int][capped as int] <= COST_LIMIT);
            c.base_cost[coeff_ctx][capped]
        };
        let sign: i32 = if abs_qc == 0 {
            0
        } else if ci == 0 {
            let s: usize = if negative {
                1
            } else {
                0
            };
            assert(-COST_LIMIT <= c.dc_sign_cost[self.o.dc_sign_ctx as int][s as int] <= COST_LIMIT);
            c.dc_sign_cost[self.o.dc_sign_ctx][s]
        } else {
            512
        };
        let range: i32 = if abs_qc > 2 {
            let b: usize = self.br_at(levels, q, ci, is_last);
            assert forall|j: int| 0 <= j < 26 implies -COST_LIMIT <= #[trigger] c.lps_cost[b as int]@[j]
                <= COST_LIMIT by {
                assert(-COST_LIMIT <= c.lps_cost[b as int][j] <= COST_LIMIT);
            }
            br_cost(abs_qc, &c.lps_cost[b])
        } else {
            0
        };
        base + sign + range
    }

    /// Step size at a raster position.
    fn dqv(&self, ci: usize) -> (r: i32)
        requires
            self.wf(),
            ci < self.w() * self.h(),
        ensures
            r == self.step(ci as int),
            0 <= r <= 0x4_0000,
    {
        dqv_qm(self.dequant, ci, self.o.iwt)
    }

    /// Reconstruction of the next lower level.
    fn recon_low(&self, q: Ghost<Seq<i32>>, d: Ghost<Seq<i32>>, ci: usize, low: i32) -> (r: i32)
        requires
            self.wf(),
            self.buffers_wf(q@, d@),
            ci < self.w() * self.h(),
            0 <= low == abs_int(q@[ci as int] as int) - 1,
        ensures
            r == self.recon(ci as int, low as int),
            0 <= r <= 0x8_0000,
    {
        let step: i32 = self.dqv(ci);
        proof {
            self.lemma_shift();
            lemma_recon_monotone(low as int, step as int, self.shift());
            lemma_mul_nonnegative(low as int, step as int);
            lemma_mul_upper_bound(low as int, 0x7fff_ffff, step as int, 0x4_0000);
            lemma_txb_dims(self.o.tx_size as int);
            assert(self.recon(ci as int, abs_int(q@[ci as int] as int)) <= 0x8_0000);
        }
        let shift: u32 = TX_SCALE_TAB[self.o.tx_size] as u32;
        shr_i64((low as i64) * (step as i64), shift) as i32
    }
}

/// A higher level never reconstructs to less.
pub proof fn lemma_recon_monotone(level: int, step: int, shift: nat)
    requires
        0 <= level,
        0 <= step,
    ensures
        0 <= reconstructed(level, step, shift) <= reconstructed(level + 1, step, shift),
{
    lemma_pow2_pos(shift);
    lemma_mul_nonnegative(level, step);
    lemma_mul_inequality(level, level + 1, step);
    lemma_div_pos_is_pos(level * step, pow2(shift) as int);
    lemma_div_is_ordered(level * step, (level + 1) * step, pow2(shift) as int);
}

/// The executable buffers hold the state `s`, with rate and distortion
/// bounded by `n` steps' worth.
spec fn holds(
    e: TrellisEnv,
    s: TrellisState,
    q: Seq<i32>,
    d: Seq<i32>,
    levels: Seq<u8>,
    rate: int,
    dist: int,
    n: int,
) -> bool {
    &&& s.q == q
    &&& s.d == d
    &&& s.rate == rate
    &&& s.dist == dist
    &&& e.buffers_wf(q, d)
    &&& levels_match(levels, q, e.w(), e.h())
    &&& -0x4_0000 * n <= rate <= 0x4_0000 * n
    &&& -0x1000_0000_0000 * n <= dist <= 0x1000_0000_0000 * n
}

/// The raster positions in the first `n` slots.
spec fn nz_seq(nz_ci: Seq<usize>, n: int) -> Seq<int> {
    Seq::new(n as nat, |j: int| nz_ci[j] as int)
}

/// Writes one coefficient and its map entry.
fn store(
    e: &TrellisEnv,
    qcoeff: &mut [i32],
    dqcoeff: &mut [i32],
    levels: &mut [u8],
    ci: usize,
    qv: i32,
    dv: i32,
)
    requires
        e.wf(),
        e.buffers_wf(old(qcoeff)@, old(dqcoeff)@),
        levels_match(old(levels)@, old(qcoeff)@, e.w(), e.h()),
        ci < e.w() * e.h(),
        qv > i32::MIN,
        -0x8_0000 <= dv <= 0x8_0000,
        e.recon(ci as int, abs_int(qv as int)) <= 0x8_0000,
    ensures
        final(qcoeff)@ == old(qcoeff)@.update(ci as int, qv),
        final(dqcoeff)@ == old(dqcoeff)@.update(ci as int, dv),
        levels_match(final(levels)@, final(qcoeff)@, e.w(), e.h()),
        e.buffers_wf(final(qcoeff)@, final(dqcoeff)@),
{
    proof {
        lemma_txb_dims(e.o.tx_size as int);
    }
    let w: usize = txb_wide(e.o.tx_size);
    let h: usize = txb_high(e.o.tx_size);
    set_level(levels, Ghost(qcoeff@), ci, qv, w, h);
    qcoeff[ci] = qv;
    dqcoeff[ci] = dv;
}

/// A zero level reconstructs to zero.
pub proof fn lemma_recon_zero(step: int, shift: nat)
    ensures
        reconstructed(0, step, shift) == 0,
{
    lemma_pow2_pos(shift);
    lemma_mul_basics(step);
    lemma_div_basics(pow2(shift) as int);
}

/// Keeps or lowers one coefficient on its own merits.
fn update_coeff_general(
    e: &TrellisEnv,
    s: Ghost<TrellisState>,
    n: Ghost<int>,
    accu_rate: &mut i32,
    accu_dist: &mut i64,
    si: usize,
    eob: u16,
    qcoeff: &mut [i32],
    dqcoeff: &mut [i32],
    levels: &mut [u8],
)
    requires
        e.wf(),
        si < e.scan@.len(),
        eob >= 1,
        s@.eob == eob,
        0 <= n@ <= 1028,
        holds(*e, s@, old(qcoeff)@, old(dqcoeff)@, old(levels)@, *old(accu_rate) as int, *old(accu_dist) as int, n@),
    ensures
        holds(
            *e,
            general_step(*e, s@, si as int),
            final(qcoeff)@,
            final(dqcoeff)@,
            final(levels)@,
            *final(accu_rate) as int,
            *final(accu_dist) as int,
            n@ + 1,
        ),
{
    let ci: usize = e.scan[si] as usize;
    let qc: i32 = qcoeff[ci];
    let is_last: bool = si == eob as usize - 1;
    let ghost q0 = qcoeff@;
    let coeff_ctx: usize = e.ctx_at(levels, Ghost(q0), si, is_last);
    assert(-COST_LIMIT <= e.o.txb_costs.base_cost[coeff_ctx as int][0] <= COST_LIMIT);
    if qc == 0 {
        *accu_rate = *accu_rate + e.o.txb_costs.base_cost[coeff_ctx][0];
    } else {
        let negative: bool = qc < 0;
        let abs_qc: i32 = abs_i32(qc);
        let tqc: i32 = e.tcoeff[ci];
        let dqc: i32 = dqcoeff[ci];
        let shift: u32 = TX_SCALE_TAB[e.o.tx_size] as u32;
        proof {
            e.lemma_shift();
        }
        let dist: i64 = get_coeff_dist(tqc, dqc, shift);
        let dist0: i64 = get_coeff_dist(tqc, 0, shift);
        let like: Ghost<int> = Ghost(qc as int);
        let rate: i32 = e.coeff_cost_general(
            levels,
            Ghost(q0),
            si,
            abs_qc,
            negative,
            is_last,
            coeff_ctx,
            like,
        );
        let rd: i64 = rdcost(e.o.rdmult, rate as i64, dist);
        let abs_low: i32 = abs_qc - 1;
        let abs_d_low: i32 = e.recon_low(Ghost(q0), Ghost(dqcoeff@), ci, abs_low);
        let qc_low: i32 = if negative {
            -abs_low
        } else {
            abs_low
        };
        let dqc_low: i32 = if negative {
            -abs_d_low
        } else {
            abs_d_low
        };
        let dist_low: i64 = get_coeff_dist(tqc, dqc_low, shift);
        let rate_low: i32 = if abs_qc == 1 {
            e.o.txb_costs.base_cost[coeff_ctx][0]
        } else {
            e.coeff_cost_general(levels, Ghost(q0), si, abs_low, negative, is_last, coeff_ctx, like)
        };
        let rd_low: i64 = rdcost(e.o.rdmult, rate_low as i64, dist_low);
        if rd_low < rd {
            store(e, qcoeff, dqcoeff, levels, ci, qc_low, dqc_low);
            *accu_rate = *accu_rate + rate_low;
            *accu_dist = *accu_dist + (dist_low - dist0);
        } else {
            *accu_rate = *accu_rate + rate;
            *accu_dist = *accu_dist + (dist - dist0);
        }
    }
}

/// Keeps or lowers one coefficient that is neither DC nor the last one.
fn update_coeff_simple(
    e: &TrellisEnv,
    s: Ghost<TrellisState>,
    n: Ghost<int>,
    accu_rate: &mut i32,
    accu_dist: i64,
    si: usize,
    qcoeff: &mut [i32],
    dqcoeff: &mut [i32],
    levels: &mut [u8],
)
    requires
        e.wf(),
        si < e.scan@.len(),
        0 <= n@ <= 2060,
        holds(*e, s@, old(qcoeff)@, old(dqcoeff)@, old(levels)@, *old(accu_rate) as int, accu_dist as int, n@),
    ensures
        holds(
            *e,
            simple_step(*e, s@, si as int),
            final(qcoeff)@,
            final(dqcoeff)@,
            final(levels)@,
            *final(accu_rate) as int,
            accu_dist as int,
            n@ + 1,
        ),
{
    let ci: usize = e.scan[si] as usize;
    let qc: i32 = qcoeff[ci];
    let ghost q0 = qcoeff@;
    let coeff_ctx: usize = e.ctx_at(levels, Ghost(q0), si, false);
    let c: &TxbCosts = e.o.txb_costs;
    assert(-COST_LIMIT <= c.base_cost[coeff_ctx as int][0] <= COST_LIMIT);
    if qc == 0 {
        *accu_rate = *accu_rate + c.base_cost[coeff_ctx][0];
    } else {
        let abs_qc: i32 = abs_i32(qc);
        let abs_tqc: i32 = abs_i32(e.tcoeff[ci]);
        let abs_dqc: i32 = abs_i32(dqcoeff[ci]);
        let capped: usize = if abs_qc <= 3 {
            abs_qc as usize
        } else {
            3
        };
        assert(-COST_LIMIT <= c.base_cost[coeff_ctx as int][capped as int] <= COST_LIMIT);
        assert(-COST_LIMIT <= c.base_cost[coeff_ctx as int][capped + 4] <= COST_LIMIT);
        let base: i32 = c.base_cost[coeff_ctx][capped] + 512;
        let base_saving: i32 = if abs_qc <= 3 {
            c.base_cost[coeff_ctx][capped + 4]
        } else {
            0
        };
        let (range, range_low): (i32, i32) = if abs_qc > 2 {
            let b: usize = e.br_at(levels, Ghost(q0), ci, false);
            assert forall|j: int| 0 <= j < 26 implies -COST_LIMIT <= #[trigger] c.lps_cost[b as int]@[j]
                <= COST_LIMIT by {
                assert(-COST_LIMIT <= c.lps_cost[b as int][j] <= COST_LIMIT);
            }
            (br_cost(abs_qc, &c.lps_cost[b]), br_cost_diff(abs_qc, &c.lps_cost[b]))
        } else {
            (0, 0)
        };
        let rate: i32 = base + range;
        let rate_low: i32 = rate - (base_saving + range_low);
        if abs_dqc < abs_tqc {
            *accu_rate = *accu_rate + rate;
            return ;
        }
        let shift: u32 = TX_SCALE_TAB[e.o.tx_size] as u32;
        proof {
            e.lemma_shift();
        }
        let dist: i64 = get_coeff_dist(abs_tqc, abs_dqc, shift);
        let rd: i64 = rdcost(e.o.rdmult, rate as i64, dist);
        let abs_low: i32 = abs_qc - 1;
        let abs_d_low: i32 = e.recon_low(Ghost(q0), Ghost(dqcoeff@), ci, abs_low);
        let dist_low: i64 = get_coeff_dist(abs_tqc, abs_d_low, shift);
        let rd_low: i64 = rdcost(e.o.rdmult, rate_low as i64, dist_low);
        if rd_low < rd {
            let qc_low: i32 = if qc < 0 {
                -abs_low
            } else {
                abs_low
            };
            let dqc_low: i32 = if qc < 0 {
                -abs_d_low
            } else {
                abs_d_low
            };
            store(e, qcoeff, dqcoeff, levels, ci, qc_low, dqc_low);
            *accu_rate = *accu_rate + rate_low;
        } else {
            *accu_rate = *accu_rate + rate;
        }
    }
}

/// Clears the coefficients at the listed positions.
fn clear_listed(
    e: &TrellisEnv,
    nz_num: usize,
    nz_ci: &[usize; 5],
    qcoeff: &mut [i32],
    dqcoeff: &mut [i32],
    levels: &mut [u8],
)
    requires
        e.wf(),
        nz_num <= 5,
        forall|j: int| 0 <= j < nz_num ==> (#[trigger] nz_ci@[j]) < e.w() * e.h(),
        e.buffers_wf(old(qcoeff)@, old(dqcoeff)@),
        levels_match(old(levels)@, old(qcoeff)@, e.w(), e.h()),
    ensures
        final(qcoeff)@ == cleared(old(qcoeff)@, nz_seq(nz_ci@, nz_num as int)),
        final(dqcoeff)@ == cleared(old(dqcoeff)@, nz_seq(nz_ci@, nz_num as int)),
        e.buffers_wf(final(qcoeff)@, final(dqcoeff)@),
        levels_match(final(levels)@, final(qcoeff)@, e.w(), e.h()),
{
    let mut j: usize = 0;
    assert(nz_seq(nz_ci@, 0) =~= Seq::empty());
    while j < nz_num
        invariant
            e.wf(),
            j <= nz_num <= 5,
            forall|j: int| 0 <= j < nz_num ==> (#[trigger] nz_ci@[j]) < e.w() * e.h(),
            e.buffers_wf(qcoeff@, dqcoeff@),
            levels_match(levels@, qcoeff@, e.w(), e.h()),
            qcoeff@ == cleared(old(qcoeff)@, nz_seq(nz_ci@, j as int)),
            dqcoeff@ == cleared(old(dqcoeff)@, nz_seq(nz_ci@, j as int)),
        decreases nz_num - j,
    {
        let ci: usize = nz_ci[j];
        proof {
            lemma_recon_zero(e.step(ci as int), e.shift());
            assert(nz_seq(nz_ci@, j + 1).drop_last() =~= nz_seq(nz_ci@, j as int));
        }
        store(e, qcoeff, dqcoeff, levels, ci, 0, 0);
        j = j + 1;
    }
}

/// Keeps or lowers one coefficient near the end of the block, and ends the
/// block at it when that costs less.
#[verifier::rlimit(40)]
fn update_coeff_eob(
    e: &TrellisEnv,
    s: Ghost<TrellisState>,
    n: Ghost<int>,
    accu_rate: &mut i32,
    accu_dist: &mut i64,
    eob: &mut u16,
    nz_num: &mut usize,
    nz_ci: &mut [usize; 5],
    si: usize,
    qcoeff: &mut [i32],
    dqcoeff: &mut [i32],
    levels: &mut [u8],
)
    requires
        e.wf(),
        si < e.scan@.len(),
        s@.eob == *old(eob),
        *old(eob) >= 1,
        *old(nz_num) <= 4,
        s@.nz == nz_seq(old(nz_ci)@, *old(nz_num) as int),
        forall|j: int| 0 <= j < *old(nz_num) ==> (#[trigger] old(nz_ci)@[j]) < e.w() * e.h(),
        2 <= n@ <= 1026,
        holds(*e, s@, old(qcoeff)@, old(dqcoeff)@, old(levels)@, *old(accu_rate) as int, *old(accu_dist) as int, n@),
    ensures
        holds(
            *e,
            eob_step(*e, s@, si as int),
            final(qcoeff)@,
            final(dqcoeff)@,
            final(levels)@,
            *final(accu_rate) as int,
            *final(accu_dist) as int,
            n@ + 1,
        ),
        eob_step(*e, s@, si as int).eob == *final(eob),
        *final(eob) >= 1,
        *final(nz_num) <= 5,
        eob_step(*e, s@, si as int).nz == nz_seq(final(nz_ci)@, *final(nz_num) as int),
        forall|j: int| 0 <= j < *final(nz_num) ==> (#[trigger] final(nz_ci)@[j]) < e.w() * e.h(),
{
    let ci: usize = e.scan[si] as usize;
    let qc: i32 = qcoeff[ci];
    let ghost q0 = qcoeff@;
    let ghost d0 = dqcoeff@;
    let coeff_ctx: usize = e.ctx_at(levels, Ghost(q0), si, false);
    assert(-COST_LIMIT <= e.o.txb_costs.base_cost[coeff_ctx as int][0] <= COST_LIMIT);
    if qc == 0 {
        *accu_rate = *accu_rate + e.o.txb_costs.base_cost[coeff_ctx][0];
    } else {
        let negative: bool = qc < 0;
        let abs_qc: i32 = abs_i32(qc);
        let tqc: i32 = e.tcoeff[ci];
        let dqc: i32 = dqcoeff[ci];
        let shift: u32 = TX_SCALE_TAB[e.o.tx_size] as u32;
        proof {
            e.lemma_shift();
        }
        let like: Ghost<int> = Ghost(qc as int);
        let dist0: i64 = get_coeff_dist(tqc, 0, shift);
        let gain: i64 = get_coeff_dist(tqc, dqc, shift) - dist0;
        let rate: i32 = e.coeff_cost_general(levels, Ghost(q0), si, abs_qc, negative, false, coeff_ctx, like);
        let rd: i64 = rdcost(e.o.rdmult, (*accu_rate + rate) as i64, *accu_dist + gain);
        let abs_low: i32 = abs_qc - 1;
        let abs_d_low: i32 = e.recon_low(Ghost(q0), Ghost(d0), ci, abs_low);
        let qc_low: i32 = if negative {
            -abs_low
        } else {
            abs_low
        };
        let dqc_low: i32 = if negative {
            -abs_d_low
        } else {
            abs_d_low
        };
        let gain_low: i64 = get_coeff_dist(tqc, dqc_low, shift) - dist0;
        let rate_low: i32 = if abs_qc == 1 {
            e.o.txb_costs.base_cost[coeff_ctx][0]
        } else {
            e.coeff_cost_general(levels, Ghost(q0), si, abs_low, negative, false, coeff_ctx, like)
        };
        let rd_low: i64 = rdcost(e.o.rdmult, (*accu_rate + rate_low) as i64, *accu_dist + gain_low);

        let ctx_last: usize = e.ctx_at(levels, Ghost(q0), si, true);
        let head: i32 = eob_cost(si as i32 + 1, e.o.eob_costs, e.o.txb_costs, e.o.tx_class);
        let mut rate_last: i32 = head + e.coeff_cost_general(
            levels,
            Ghost(q0),
            si,
            abs_qc,
            negative,
            true,
            ctx_last,
            like,
        );
        let mut gain_last: i64 = gain;
        let mut rd_last: i64 = rdcost(e.o.rdmult, rate_last as i64, gain_last);
        let mut last_lower: bool = false;
        if abs_low > 0 {
            let rate_last_low: i32 = head + e.coeff_cost_general(
                levels,
                Ghost(q0),
                si,
                abs_low,
                negative,
                true,
                ctx_last,
                like,
            );
            let rd_last_low: i64 = rdcost(e.o.rdmult, rate_last_low as i64, gain_low);
            if rd_last_low < rd_last {
                last_lower = true;
                rd_last = rd_last_low;
                rate_last = rate_last_low;
                gain_last = gain_low;
            }
        }
        let stay_lower: bool = rd_low < rd;
        let rd_stay: i64 = if stay_lower {
            rd_low
        } else {
            rd
        };
        let lower: bool;
        if !e.o.sharpness_flag && rd_last < rd_stay {
            clear_listed(e, *nz_num, nz_ci, qcoeff, dqcoeff, levels);
            *eob = (si + 1) as u16;
            *nz_num = 0;
            *accu_rate = rate_last;
            *accu_dist = gain_last;
            lower = last_lower;
        } else {
            *accu_rate = *accu_rate + if stay_lower {
                rate_low
            } else {
                rate
            };
            *accu_dist = *accu_dist + if stay_lower {
                gain_low
            } else {
                gain
            };
            lower = stay_lower;
        }
        let ghost q1 = qcoeff@;
        let ghost d1 = dqcoeff@;
        let ghost num1 = *nz_num;
        if lower {
            proof {
                assert(e.recon(ci as int, abs_int(qc_low as int)) <= 0x8_0000);
            }
            store(e, qcoeff, dqcoeff, levels, ci, qc_low, dqc_low);
        }
        assert(nz_seq(nz_ci@, 0) =~= Seq::<int>::empty());
        if qcoeff[ci] != 0 {
            let ghost before = nz_ci@;
            nz_ci[*nz_num] = ci;
            *nz_num = *nz_num + 1;
            proof {
                assert(nz_seq(nz_ci@, *nz_num as int) =~= nz_seq(before, num1 as int).push(ci as int));
            }
        }
        proof {
            let st = eob_step(*e, s@, si as int);
            assert(st.q == qcoeff@);
            assert(st.d == dqcoeff@);
            assert(st.rate == *accu_rate);
            assert(st.dist == *accu_dist);
        }
    }
}

/// Drops the whole block when an empty one costs less.
fn update_skip(
    e: &TrellisEnv,
    s: Ghost<TrellisState>,
    n: Ghost<int>,
    accu_rate: &mut i32,
    accu_dist: i64,
    eob: &mut u16,
    nz_num: usize,
    nz_ci: &[usize; 5],
    qcoeff: &mut [i32],
    dqcoeff: &mut [i32],
    levels: &mut [u8],
)
    requires
        e.wf(),
        s@.eob == *old(eob),
        nz_num <= 5,
        s@.nz == nz_seq(nz_ci@, nz_num as int),
        forall|j: int| 0 <= j < nz_num ==> (#[trigger] nz_ci@[j]) < e.w() * e.h(),
        0 <= n@ <= 1027,
        holds(*e, s@, old(qcoeff)@, old(dqcoeff)@, old(levels)@, *old(accu_rate) as int, accu_dist as int, n@),
    ensures
        holds(
            *e,
            skip_step(*e, s@),
            final(qcoeff)@,
            final(dqcoeff)@,
            final(levels)@,
            *final(accu_rate) as int,
            accu_dist as int,
            n@,
        ),
        skip_step(*e, s@).eob == *final(eob),
{
    let row: &[i32; 2] = &e.o.txb_costs.txb_skip_cost[e.o.txb_skip_ctx];
    assert(-COST_LIMIT <= e.o.txb_costs.txb_skip_cost[e.o.txb_skip_ctx as int][0] <= COST_LIMIT);
    assert(-COST_LIMIT <= e.o.txb_costs.txb_skip_cost[e.o.txb_skip_ctx as int][1] <= COST_LIMIT);
    let rd: i64 = rdcost(e.o.rdmult, (*accu_rate + row[0]) as i64, accu_dist);
    let rd_empty: i64 = rdcost(e.o.rdmult, row[1] as i64, 0);
    if !e.o.sharpness_flag && rd_empty < rd {
        clear_listed(e, nz_num, nz_ci, qcoeff, dqcoeff, levels);
        *accu_rate = 0;
        *eob = 0;
    }
}

/// The surroundings of an optimization.
pub open spec fn env_of<'a>(
    tcoeffs: &'a [i32],
    scan: &'a [u16],
    t: &'a QuantTable,
    o: &'a OptimizeCtx<'a>,
) -> TrellisEnv<'a> {
    TrellisEnv { o, dequant: &t.dequant, scan, tcoeff: tcoeffs }
}

/// Keeps or lowers the last coefficient of a block.
fn walk_last(
    e: &TrellisEnv,
    eob: u16,
    qcoeff: &mut [i32],
    dqcoeff: &mut [i32],
    levels: &mut [u8],
) -> (r: (i32, i64))
    requires
        e.wf(),
        e.buffers_wf(old(qcoeff)@, old(dqcoeff)@),
        levels_match(old(levels)@, old(qcoeff)@, e.w(), e.h()),
        1 <= eob <= e.scan@.len(),
        old(qcoeff)@[e.scan@[eob - 1] as int] != 0,
    ensures
        holds(
            *e,
            first_step(*e, old(qcoeff)@, old(dqcoeff)@, eob as int),
            final(qcoeff)@,
            final(dqcoeff)@,
            final(levels)@,
            r.0 as int,
            r.1 as int,
            2,
        ),
{
    let ghost q0 = qcoeff@;
    let ghost d0 = dqcoeff@;
    proof {
        lemma_txb_dims(e.o.tx_size as int);
        e.lemma_shift();
    }
    let mut accu_rate: i32 = eob_cost(eob as i32, e.o.eob_costs, e.o.txb_costs, e.o.tx_class);
    let mut accu_dist: i64 = 0;
    let last: usize = eob as usize - 1;
    let ci: usize = e.scan[last] as usize;
    let qc: i32 = qcoeff[ci];
    let ghost start = TrellisState {
        q: q0,
        d: d0,
        rate: accu_rate as int,
        dist: 0,
        eob: eob as int,
        nz: seq![ci as int],
    };
    if abs_i32(qc) >= 2 {
        update_coeff_general(
            e,
            Ghost(start),
            Ghost(1),
            &mut accu_rate,
            &mut accu_dist,
            last,
            eob,
            qcoeff,
            dqcoeff,
            levels,
        );
    } else {
        let ctx: usize = e.ctx_at(levels, Ghost(q0), last, true);
        let rate: i32 = e.coeff_cost_general(levels, Ghost(q0), last, 1, qc < 0, true, ctx, Ghost(qc as int));
        accu_rate = accu_rate + rate;
        let shift: u32 = TX_SCALE_TAB[e.o.tx_size] as u32;
        accu_dist = get_coeff_dist(e.tcoeff[ci], dqcoeff[ci], shift) - get_coeff_dist(e.tcoeff[ci], 0, shift);
    }
    (accu_rate, accu_dist)
}

/// The state after the end-of-block phase, in which the whole block may be
/// dropped.
spec fn after_end(e: TrellisEnv, s: TrellisState, si: int) -> TrellisState {
    let (s1, at) = eob_walk(e, s, si);
    if at == -1 && s1.nz.len() <= 4 {
        skip_step(e, s1)
    } else {
        s1
    }
}

/// Walks the end-of-block phase from scan position `eob - 2` down, and gives
/// the position it stops at.
fn walk_end(
    e: &TrellisEnv,
    s0: Ghost<TrellisState>,
    accu_rate: &mut i32,
    accu_dist: &mut i64,
    eob: &mut u16,
    qcoeff: &mut [i32],
    dqcoeff: &mut [i32],
    levels: &mut [u8],
) -> (r: i32)
    requires
        e.wf(),
        1 <= *old(eob) <= e.scan@.len(),
        s0@.eob == *old(eob),
        s0@.nz == seq![e.scan@[*old(eob) - 1] as int],
        holds(*e, s0@, old(qcoeff)@, old(dqcoeff)@, old(levels)@, *old(accu_rate) as int, *old(accu_dist) as int, 2),
    ensures
        r == eob_walk(*e, s0@, *old(eob) - 2).1,
        -1 <= r <= *old(eob) - 2,
        r >= 0 ==> *final(eob) >= 1,
        *final(eob) == after_end(*e, s0@, *old(eob) - 2).eob,
        *final(eob) <= 1024,
        holds(
            *e,
            after_end(*e, s0@, *old(eob) - 2),
            final(qcoeff)@,
            final(dqcoeff)@,
            final(levels)@,
            *final(accu_rate) as int,
            *final(accu_dist) as int,
            *old(eob) - r,
        ),
{
    let ghost eob0: int = *eob as int;
    let ci: usize = e.scan[*eob as usize - 1] as usize;
    let mut nz_num: usize = 1;
    let mut nz_ci: [usize; 5] = [ci, 0, 0, 0, 0];
    assert(nz_seq(nz_ci@, 1) =~= seq![ci as int]);
    let ghost mut s: TrellisState = s0@;
    let ghost mut n: int = 2;
    let mut si: i32 = *eob as i32 - 2;
    while si >= 0 && nz_num <= 4
        invariant
            e.wf(),
            -1 <= si <= eob0 - 2,
            eob0 <= e.scan@.len(),
            n == eob0 - si,
            s.eob == *eob,
            1 <= *eob <= eob0,
            nz_num <= 5,
            s.nz == nz_seq(nz_ci@, nz_num as int),
            forall|j: int| 0 <= j < nz_num ==> (#[trigger] nz_ci@[j]) < e.w() * e.h(),
            holds(*e, s, qcoeff@, dqcoeff@, levels@, *accu_rate as int, *accu_dist as int, n),
            eob_walk(*e, s0@, eob0 - 2) == eob_walk(*e, s, si as int),
        decreases si + 1,
    {
        let ghost was: u16 = *eob;
        update_coeff_eob(
            e,
            Ghost(s),
            Ghost(n),
            accu_rate,
            accu_dist,
            eob,
            &mut nz_num,
            &mut nz_ci,
            si as usize,
            qcoeff,
            dqcoeff,
            levels,
        );
        proof {
            assert(*eob == was || *eob == si + 1);
            s = eob_step(*e, s, si as int);
            n = n + 1;
        }
        si = si - 1;
    }
    assert(eob_walk(*e, s0@, eob0 - 2) == (s, si as int));
    if si == -1 && nz_num <= 4 {
        update_skip(
            e,
            Ghost(s),
            Ghost(n),
            accu_rate,
            *accu_dist,
            eob,
            nz_num,
            &nz_ci,
            qcoeff,
            dqcoeff,
            levels,
        );
        proof {
            let was = s;
            s = skip_step(*e, s);
            assert(s.eob == was.eob || s.eob == 0);
        }
    }
    si
}

/// First scan position the plain phase touches.
fn plain_from(e: &TrellisEnv, eob: u16) -> (r: i32)
    requires
        e.wf(),
        eob <= 1024,
    ensures
        r == plain_end(*e, eob as int),
        1 <= r,
{
    let o: &OptimizeCtx = e.o;
    let width: usize = txb_wide(o.tx_size);
    let height: usize = txb_high(o.tx_size);
    proof {
        lemma_txb_dims(o.tx_size as int);
    }
    let mut si_end: i32 = 1;
    if o.cut_off_num != 0 {
        proof {
            lemma_mul_upper_bound(eob as int, 1024, o.cut_off_num as int, 0x1f_ffff);
            lemma_mul_nonnegative(eob as int, o.cut_off_num as int);
            lemma_div_pos_is_pos(eob * o.cut_off_num, o.cut_off_denum as int);
            lemma_div_is_ordered_by_denominator(eob * o.cut_off_num, 1, o.cut_off_denum as int);
        }
        let share: u32 = (eob as u32 * o.cut_off_num) / o.cut_off_denum;
        let area: u32 = ((width * height) / 128) as u32;
        let cut: i32 = if area >= share {
            area as i32
        } else {
            share as i32
        };
        if eob as i32 - cut > 1 {
            si_end = eob as i32 - cut;
        }
    }
    si_end
}

/// Walks the plain phase from scan position `from` down to `si_end`.
fn walk_plain(
    e: &TrellisEnv,
    s2: Ghost<TrellisState>,
    n2: Ghost<int>,
    accu_rate: &mut i32,
    accu_dist: i64,
    from: i32,
    si_end: i32,
    qcoeff: &mut [i32],
    dqcoeff: &mut [i32],
    levels: &mut [u8],
) -> (r: i32)
    requires
        e.wf(),
        -1 <= from < e.scan@.len(),
        1 <= si_end,
        0 <= n2@,
        n2@ + from + 1 <= 1026,
        holds(*e, s2@, old(qcoeff)@, old(dqcoeff)@, old(levels)@, *old(accu_rate) as int, accu_dist as int, n2@),
    ensures
        r == if from >= si_end {
            si_end - 1
        } else {
            from as int
        },
        holds(
            *e,
            simple_walk(*e, s2@, from as int, si_end as int),
            final(qcoeff)@,
            final(dqcoeff)@,
            final(levels)@,
            *final(accu_rate) as int,
            accu_dist as int,
            n2@ + from - r,
        ),
        simple_walk(*e, s2@, from as int, si_end as int).eob == s2@.eob,
{
    let ghost mut s: TrellisState = s2@;
    let ghost mut n: int = n2@;
    let mut si: i32 = from;
    while si >= si_end
        invariant
            e.wf(),
            -1 <= si <= from < e.scan@.len(),
            si >= si_end - 1 || si == from,
            1 <= si_end,
            n == n2@ + from - si,
            0 <= n2@,
            n2@ + from + 1 <= 1026,
            holds(*e, s, qcoeff@, dqcoeff@, levels@, *accu_rate as int, accu_dist as int, n),
            s.eob == s2@.eob,
            simple_walk(*e, s2@, from as int, si_end as int) == simple_walk(*e, s, si as int, si_end as int),
        decreases si - si_end + 1,
    {
        update_coeff_simple(e, Ghost(s), Ghost(n), accu_rate, accu_dist, si as usize, qcoeff, dqcoeff, levels);
        proof {
            s = simple_step(*e, s, si as int);
            n = n + 1;
        }
        si = si - 1;
    }
    assert(s == simple_walk(*e, s2@, from as int, si_end as int));
    si
}

/// Optimizes a quantized block in place. `tcoeffs` are the coefficients
/// before quantization; `eob` must end at a nonzero level.
#[verifier::spinoff_prover]
#[verifier::rlimit(100)]
pub fn optimize_b<'a>(
    tcoeffs: &'a [i32],
    qcoeff: &mut [i32],
    dqcoeff: &mut [i32],
    eob: &mut u16,
    scan: &'a [u16],
    t: &'a QuantTable,
    o: &'a OptimizeCtx<'a>,
)
    requires
        env_of(tcoeffs, scan, t, o).wf(),
        env_of(tcoeffs, scan, t, o).buffers_wf(old(qcoeff)@, old(dqcoeff)@),
        1 <= *old(eob) <= scan@.len(),
        old(qcoeff)@[scan@[*old(eob) - 1] as int] != 0,
    ensures
        final(qcoeff)@ == optimized(
            env_of(tcoeffs, scan, t, o),
            old(qcoeff)@,
            old(dqcoeff)@,
            *old(eob) as int,
        ).q,
        final(dqcoeff)@ == optimized(
            env_of(tcoeffs, scan, t, o),
            old(qcoeff)@,
            old(dqcoeff)@,
            *old(eob) as int,
        ).d,
        *final(eob) == optimized(
            env_of(tcoeffs, scan, t, o),
            old(qcoeff)@,
            old(dqcoeff)@,
            *old(eob) as int,
        ).eob,
{
    let e: TrellisEnv<'a> = TrellisEnv { o, dequant: &t.dequant, scan, tcoeff: tcoeffs };
    let width: usize = txb_wide(o.tx_size);
    let height: usize = txb_high(o.tx_size);
    let ghost q0 = qcoeff@;
    let ghost d0 = dqcoeff@;
    let ghost eob0: int = *eob as int;
    proof {
        lemma_txb_dims(o.tx_size as int);
    }
    let mut levels: Vec<u8> = txb_init_levels(qcoeff, width, height);
    let (mut accu_rate, mut accu_dist): (i32, i64) = walk_last(&e, *eob, qcoeff, dqcoeff, levels.as_mut_slice());
    let ghost s0 = first_step(e, q0, d0, eob0);
    let si: i32 = walk_end(
        &e,
        Ghost(s0),
        &mut accu_rate,
        &mut accu_dist,
        eob,
        qcoeff,
        dqcoeff,
        levels.as_mut_slice(),
    );
    let ghost s2 = after_end(e, s0, eob0 - 2);
    let si_end: i32 = plain_from(&e, *eob);
    let rest: i32 = walk_plain(
        &e,
        Ghost(s2),
        Ghost(eob0 - si),
        &mut accu_rate,
        accu_dist,
        si,
        si_end,
        qcoeff,
        dqcoeff,
        levels.as_mut_slice(),
    );
    if rest == 0 {
        let ghost s3 = simple_walk(e, s2, si as int, si_end as int);
        update_coeff_general(
            &e,
            Ghost(s3),
            Ghost(eob0),
            &mut accu_rate,
            &mut accu_dist,
            0,
            *eob,
            qcoeff,
            dqcoeff,
            levels.as_mut_slice(),
        );
    }
}

} // verus!
