//! Coefficient rates from the adaptive symbol distributions.
//!
//! A distribution of `n` symbols is stored as the probabilities, in 1/32768,
//! that a symbol is beyond each one: a falling sequence that ends in zero.

use vstd::arithmetic::mul::{lemma_mul_inequality, lemma_mul_is_commutative};
use vstd::arithmetic::power2::{
    lemma2_to64, lemma_pow2_adds, lemma_pow2_pos, lemma_pow2_strictly_increases, pow2,
};
use vstd::prelude::*;

use crate::arith::{max_int, min_int, pow2_i64};
use crate::quant::{floor_log2, ilog2, lemma_ilog2};
use crate::trellis::{eob_costs_wf, txb_costs_wf, EobCosts, TxbCosts};

verus! {

/// `512 * log2(256 / i)` for `i` from 128 to 255, rounded.
pub const PROB_COST: [u32; 128] = [
    512, 506, 501, 495, 489, 484, 478, 473, 467, 462, 456, 451, 446, 441, 435, 430,
    425, 420, 415, 410, 405, 400, 395, 390, 385, 380, 375, 371, 366, 361, 356, 352,
    347, 343, 338, 333, 329, 324, 320, 316, 311, 307, 302, 298, 294, 289, 285, 281,
    277, 273, 268, 264, 260, 256, 252, 248, 244, 240, 236, 232, 228, 224, 220, 216,
    212, 209, 205, 201, 197, 194, 190, 186, 182, 179, 175, 171, 168, 164, 161, 157,
    153, 150, 146, 143, 139, 136, 132, 129, 125, 122, 119, 115, 112, 109, 105, 102,
    99, 95, 92, 89, 86, 82, 79, 76, 73, 70, 66, 63, 60, 57, 54, 51,
    48, 45, 42, 38, 35, 32, 29, 26, 23, 20, 18, 15, 12, 9, 6, 3,
];

/// Rate of a symbol of probability `p / 32768`, in 1/512 bit: the probability
/// is scaled into the upper half of the 8-bit range, looked up, and one bit
/// is charged for each doubling.
pub open spec fn symbol_rate(p: int) -> int {
    let shift = (14 - ilog2(p)) as nat;
    let scaled = ((p * pow2(shift)) * 256 + 16384) / 32768;
    PROB_COST[min_int(scaled, 255) - 128] + 512 * shift
}

/// Rate of a symbol of probability `p15 / 32768`.
pub fn av1_cost_symbol(p15: u32) -> (r: u32)
    requires
        0 < p15 < 32768,
    ensures
        r == symbol_rate(p15 as int),
        r <= 512 * 15,
{
    let l: u32 = floor_log2(p15);
    proof {
        lemma_ilog2(p15 as int);
        lemma2_to64();
        if l > 14 {
            if l > 15 {
                lemma_pow2_strictly_increases(15, l as nat);
            }
        }
        let shift = (14 - l) as nat;
        lemma_pow2_adds(shift, l as nat);
        lemma_pow2_adds(shift, l as nat + 1);
        lemma_pow2_pos(shift);
        let s = pow2(shift) as int;
        lemma_mul_inequality(pow2(l as nat) as int, p15 as int, s);
        lemma_mul_inequality(p15 as int, pow2(l as nat + 1) - 1, s);
        lemma_mul_is_commutative(s, pow2(l as nat) as int);
        lemma_mul_is_commutative(s, pow2(l as nat + 1) as int);
        assert((pow2(l as nat + 1) - 1) * s <= pow2(l as nat + 1) * s) by {
            lemma_mul_inequality(pow2(l as nat + 1) - 1, pow2(l as nat + 1) as int, s);
        }
        assert(16384 <= p15 * s <= 32768);
    }
    let shift: u32 = 14 - l;
    let scaled: i64 = ((p15 as i64) * pow2_i64(shift) * 256 + 16384) / 32768;
    let index: usize = if scaled > 255 {
        127
    } else {
        (scaled - 128) as usize
    };
    assert(PROB_COST[index as int] <= 512);
    PROB_COST[index] + 512 * shift
}

/// Whether `cdf` is a stored distribution of at least two and at most `n`
/// symbols.
pub open spec fn cdf_wf(cdf: Seq<u16>, n: int) -> bool {
    &&& 2 <= cdf.len()
    &&& cdf[0] < 32768
    &&& 0 < cdf[0]
    &&& forall|i: int, j: int| 0 <= i <= j < cdf.len() ==> #[trigger] cdf[j] <= #[trigger] cdf[i]
    &&& exists|last: int| 0 < last < n && last < cdf.len() && #[trigger] cdf[last] == 0
}

/// What a stored distribution leaves for a symbol and those behind it.
pub open spec fn cdf_left(cdf: Seq<u16>, sym: int) -> int {
    if sym == 0 {
        32768
    } else {
        cdf[sym - 1] as int
    }
}

/// Whether a stored distribution has a symbol.
pub open spec fn has_symbol(cdf: Seq<u16>, sym: int) -> bool {
    0 <= sym < cdf.len() && cdf_left(cdf, sym) > 0
}

/// Rate of a symbol under a stored distribution; zero beyond its last symbol.
pub open spec fn cdf_rate(cdf: Seq<u16>, sym: int) -> int {
    if has_symbol(cdf, sym) {
        symbol_rate(max_int(cdf_left(cdf, sym) - cdf[sym], 4))
    } else {
        0
    }
}

/// Writes the rate of every symbol of a distribution; entries beyond its
/// last symbol keep their value.
pub fn syntax_rate_from_cdf(costs: &mut [i32], cdf: &[u16])
    requires
        cdf_wf(cdf@, old(costs)@.len() as int),
    ensures
        final(costs)@.len() == old(costs)@.len(),
        forall|i: int|
            0 <= i < final(costs)@.len() ==> (#[trigger] final(costs)@[i]) == if has_symbol(cdf@, i) {
                cdf_rate(cdf@, i)
            } else {
                old(costs)@[i] as int
            },
        forall|i: int|
            0 <= i < final(costs)@.len() && has_symbol(cdf@, i) ==> 0 <= #[trigger] final(costs)@[i] <= 7680,
{
    let mut i: usize = 0;
    let mut prev: u32 = 32768;
    let ghost n = costs@.len();
    let ghost end = choose|last: int| 0 < last < n && last < cdf@.len() && #[trigger] cdf@[last] == 0;
    while prev > 0
        invariant
            cdf_wf(cdf@, n as int),
            0 < end < n,
            end < cdf@.len(),
            cdf@[end] == 0,
            0 <= i <= end + 1,
            costs@.len() == n,
            prev == cdf_left(cdf@, i as int),
            forall|j: int|
                0 <= j < i ==> has_symbol(cdf@, j) && (#[trigger] costs@[j]) == cdf_rate(cdf@, j) && 0 <= costs@[j]
                    <= 7680,
            forall|j: int| i <= j < n ==> #[trigger] costs@[j] == old(costs)@[j],
        decreases end + 1 - i,
    {
        proof {
            if i > end {
                assert(cdf@[i - 1] <= cdf@[end]);
            }
        }
        let v: u32 = cdf[i] as u32;
        proof {
            if i > 0 {
                assert(cdf@[i as int] <= cdf@[i - 1]);
                assert(cdf@[i - 1] <= cdf@[0]);
            }
        }
        let p: u32 = if prev - v > 4 {
            prev - v
        } else {
            4
        };
        costs[i] = av1_cost_symbol(p) as i32;
        prev = v;
        i = i + 1;
    }
    proof {
        assert forall|j: int| i <= j < n implies !has_symbol(cdf@, j) by {
            if j < cdf@.len() {
                assert(cdf@[j - 1] <= cdf@[i - 1]);
            }
        }
    }
}

/// The symbol distributions coefficients are coded with.
pub struct CoeffFc {
    /// By transform-size context and skip context.
    pub txb_skip_cdf: Vec<Vec<u16>>,
    /// By transform-size context, plane type and context.
    pub coeff_base_eob_cdf: Vec<Vec<u16>>,
    pub coeff_base_cdf: Vec<Vec<u16>>,
    pub eob_extra_cdf: Vec<Vec<u16>>,
    /// By plane type and context.
    pub dc_sign_cdf: Vec<Vec<u16>>,
    /// By transform-size context up to 3, plane type and context.
    pub coeff_br_cdf: Vec<Vec<u16>>,
    /// By plane type and transform class, one table per block size class.
    pub eob_flag_cdf16: Vec<Vec<u16>>,
    pub eob_flag_cdf32: Vec<Vec<u16>>,
    pub eob_flag_cdf64: Vec<Vec<u16>>,
    pub eob_flag_cdf128: Vec<Vec<u16>>,
    pub eob_flag_cdf256: Vec<Vec<u16>>,
    pub eob_flag_cdf512: Vec<Vec<u16>>,
    pub eob_flag_cdf1024: Vec<Vec<u16>>,
}

/// `rows` distributions of at most `symbols` symbols each.
pub open spec fn cdf_table_wf(table: Seq<Vec<u16>>, rows: int, symbols: int) -> bool {
    &&& table.len() == rows
    &&& forall|i: int| 0 <= i < rows ==> cdf_wf((#[trigger] table[i])@, symbols)
}

/// Every table has its rows, and every row is a distribution.
pub open spec fn fc_wf(fc: CoeffFc) -> bool {
    &&& cdf_table_wf(fc.txb_skip_cdf@, 65, 2)
    &&& cdf_table_wf(fc.coeff_base_eob_cdf@, 40, 3)
    &&& cdf_table_wf(fc.coeff_base_cdf@, 420, 4)
    &&& cdf_table_wf(fc.eob_extra_cdf@, 90, 2)
    &&& cdf_table_wf(fc.dc_sign_cdf@, 6, 2)
    &&& cdf_table_wf(fc.coeff_br_cdf@, 168, 4)
    &&& forall|k: int| 0 <= k < 7 ==> cdf_table_wf(#[trigger] eob_flag_table(fc, k), 4, 5 + k)
}

/// The end-of-block distributions of a block size class.
pub open spec fn eob_flag_table(fc: CoeffFc, k: int) -> Seq<Vec<u16>> {
    if k == 0 {
        fc.eob_flag_cdf16@
    } else if k == 1 {
        fc.eob_flag_cdf32@
    } else if k == 2 {
        fc.eob_flag_cdf64@
    } else if k == 3 {
        fc.eob_flag_cdf128@
    } else if k == 4 {
        fc.eob_flag_cdf256@
    } else if k == 5 {
        fc.eob_flag_cdf512@
    } else {
        fc.eob_flag_cdf1024@
    }
}

/// Rate of the range level `i`: one symbol of at most three per group, with
/// the escape symbol of every group before it.
pub open spec fn lps_rate(br: Seq<u16>, i: int) -> int {
    if i < 12 {
        (i / 3) * cdf_rate(br, 3) + cdf_rate(br, i % 3)
    } else {
        4 * cdf_rate(br, 3)
    }
}

/// `c` holds the rates of one transform-size context and plane type.
pub open spec fn is_txb_costs(c: TxbCosts, fc: CoeffFc, txs: int, plane: int) -> bool {
    let idx = txs * 2 + plane;
    let br_txs = min_int(txs, 3);
    &&& forall|ctx: int, s: int|
        0 <= ctx < 13 && 0 <= s < 2 ==> #[trigger] c.txb_skip_cost[ctx][s] == cdf_rate(
            fc.txb_skip_cdf@[txs * 13 + ctx]@,
            s,
        )
    &&& forall|ctx: int, s: int|
        0 <= ctx < 4 && 0 <= s < 3 ==> #[trigger] c.base_eob_cost[ctx][s] == cdf_rate(
            fc.coeff_base_eob_cdf@[idx * 4 + ctx]@,
            s,
        )
    &&& forall|ctx: int, s: int|
        0 <= ctx < 42 && 0 <= s < 8 ==> #[trigger] c.base_cost[ctx][s] == base_rate(
            fc.coeff_base_cdf@[idx * 42 + ctx]@,
            s,
        )
    &&& forall|ctx: int, s: int|
        0 <= ctx < 9 && 0 <= s < 2 ==> #[trigger] c.eob_extra_cost[ctx][s] == cdf_rate(
            fc.eob_extra_cdf@[idx * 9 + ctx]@,
            s,
        )
    &&& forall|ctx: int, s: int|
        0 <= ctx < 3 && 0 <= s < 2 ==> #[trigger] c.dc_sign_cost[ctx][s] == cdf_rate(
            fc.dc_sign_cdf@[plane * 3 + ctx]@,
            s,
        )
    &&& forall|ctx: int, s: int|
        0 <= ctx < 21 && 0 <= s < 26 ==> #[trigger] c.lps_cost[ctx][s] == lps_entry(
            fc.coeff_br_cdf@[(br_txs * 2 + plane) * 21 + ctx]@,
            s,
        )
}

/// Base-level rates 0 to 3, then what lowering each level saves, the sign
/// bit of level 1 included.
pub open spec fn base_rate(cdf: Seq<u16>, s: int) -> int {
    if s < 4 {
        cdf_rate(cdf, s)
    } else if s == 4 {
        0
    } else if s == 5 {
        cdf_rate(cdf, 1) + 512 - cdf_rate(cdf, 0)
    } else {
        cdf_rate(cdf, s - 4) - cdf_rate(cdf, s - 5)
    }
}

/// Range-level rates 0 to 12, then what lowering each level saves.
pub open spec fn lps_entry(br: Seq<u16>, s: int) -> int {
    if s < 13 {
        lps_rate(br, s)
    } else if s == 13 {
        lps_rate(br, 0)
    } else {
        lps_rate(br, s - 13) - lps_rate(br, s - 14)
    }
}

/// The rates of the first `n` symbols of a distribution.
fn cdf_rates(cdf: &Vec<u16>, n: usize) -> (r: Vec<i32>)
    requires
        cdf_wf(cdf@, n as int),
        n <= 11,
    ensures
        r@.len() == n,
        forall|i: int|
            0 <= i < n ==> (#[trigger] r@[i]) == cdf_rate(cdf@, i) && 0 <= r@[i] <= 7680,
{
    let mut r: Vec<i32> = Vec::new();
    let mut i: usize = 0;
    while i < n
        invariant
            i <= n,
            r@.len() == i,
            forall|j: int| 0 <= j < i ==> #[trigger] r@[j] == 0,
        decreases n - i,
    {
        r.push(0);
        i = i + 1;
    }
    syntax_rate_from_cdf(&mut r, cdf);
    r
}

fn lps_row(br: &Vec<u16>) -> (row: [i32; 26])
    requires
        cdf_wf(br@, 4),
    ensures
        forall|s: int|
            0 <= s < 26 ==> (#[trigger] row@[s]) == lps_entry(br@, s) && -0x8000 <= row@[s] <= 0x8000,
{
    let b: Vec<i32> = cdf_rates(br, 4);
    let mut row: [i32; 26] = [0; 26];
    let mut i: usize = 0;
    while i < 12
        invariant
            i <= 12,
            b@.len() == 4,
            forall|j: int| 0 <= j < 4 ==> (#[trigger] b@[j]) == cdf_rate(br@, j) && 0 <= b@[j] <= 7680,
            forall|s: int|
                0 <= s < i ==> (#[trigger] row@[s]) == lps_rate(br@, s) && 0 <= row@[s] <= 31000,
        decreases 12 - i,
    {
        proof {
            let k = (i / 3) as int;
            assert(0 <= k <= 3);
            let x = cdf_rate(br@, 3);
            assert(b@[3] == x);
            assert(0 <= k * x <= 3 * 7680) by (nonlinear_arith)
                requires
                    0 <= k <= 3,
                    0 <= x <= 7680,
            ;
        }
        row[i] = ((i / 3) as i32) * b[3] + b[i % 3];
        i = i + 1;
    }
    row[12] = 4 * b[3];
    row[13] = row[0];
    let mut j: usize = 1;
    while j <= 12
        invariant
            1 <= j <= 13,
            forall|s: int|
                0 <= s < 13 ==> (#[trigger] row@[s]) == lps_rate(br@, s) && 0 <= row@[s] <= 31000,
            row@[13] == lps_rate(br@, 0),
            forall|s: int|
                14 <= s < 13 + j ==> (#[trigger] row@[s]) == lps_rate(br@, s - 13) - lps_rate(
                    br@,
                    s - 14,
                ) && -0x8000 <= row@[s] <= 0x8000,
        decreases 13 - j,
    {
        row[j + 13] = row[j] - row[j - 1];
        j = j + 1;
    }
    row
}

/// The rates of one transform-size context and plane type.
pub fn txb_costs_from_fc(fc: &CoeffFc, txs: usize, plane: usize) -> (c: TxbCosts)
    requires
        fc_wf(*fc),
        txs < 5,
        plane < 2,
    ensures
        is_txb_costs(c, *fc, txs as int, plane as int),
        txb_costs_wf(c),
{
    let mut txb_skip_cost: [[i32; 2]; 13] = [[0; 2]; 13];
    let mut i: usize = 0;
    while i < 13
        invariant
            i <= 13,
            txs < 5,
            plane < 2,
            fc_wf(*fc),
            forall|ctx: int, s: int|
                0 <= ctx < i && 0 <= s < 2 ==> #[trigger] txb_skip_cost[ctx][s] == cdf_rate(
                    fc.txb_skip_cdf@[txs * 13 + ctx]@,
                    s,
                ) && -0x8000 <= txb_skip_cost[ctx][s] <= 0x8000,
        decreases 13 - i,
    {
        let v: Vec<i32> = cdf_rates(&fc.txb_skip_cdf[txs * 13 + i], 2);
        txb_skip_cost[i] = [v[0], v[1]];
        i = i + 1;
    }
    let mut base_eob_cost: [[i32; 3]; 4] = [[0; 3]; 4];
    let mut i: usize = 0;
    while i < 4
        invariant
            i <= 4,
            txs < 5,
            plane < 2,
            fc_wf(*fc),
            forall|ctx: int, s: int|
                0 <= ctx < i && 0 <= s < 3 ==> #[trigger] base_eob_cost[ctx][s] == cdf_rate(
                    fc.coeff_base_eob_cdf@[(txs * 2 + plane) * 4 + ctx]@,
                    s,
                ) && -0x8000 <= base_eob_cost[ctx][s] <= 0x8000,
        decreases 4 - i,
    {
        let v: Vec<i32> = cdf_rates(&fc.coeff_base_eob_cdf[(txs * 2 + plane) * 4 + i], 3);
        base_eob_cost[i] = [v[0], v[1], v[2]];
        i = i + 1;
    }
    let mut base_cost: [[i32; 8]; 42] = [[0; 8]; 42];
    let mut i: usize = 0;
    while i < 42
        invariant
            i <= 42,
            txs < 5,
            plane < 2,
            fc_wf(*fc),
            forall|ctx: int, s: int|
                0 <= ctx < i && 0 <= s < 8 ==> #[trigger] base_cost[ctx][s] == base_rate(
                    fc.coeff_base_cdf@[(txs * 2 + plane) * 42 + ctx]@,
                    s,
                ) && -0x8000 <= base_cost[ctx][s] <= 0x8000,
        decreases 42 - i,
    {
        let v: Vec<i32> = cdf_rates(&fc.coeff_base_cdf[(txs * 2 + plane) * 42 + i], 4);
        base_cost[i] = [
            v[0],
            v[1],
            v[2],
            v[3],
            0,
            v[1] + 512 - v[0],
            v[2] - v[1],
            v[3] - v[2],
        ];
        i = i + 1;
    }
    let mut eob_extra_cost: [[i32; 2]; 9] = [[0; 2]; 9];
    let mut i: usize = 0;
    while i < 9
        invariant
            i <= 9,
            txs < 5,
            plane < 2,
            fc_wf(*fc),
            forall|ctx: int, s: int|
                0 <= ctx < i && 0 <= s < 2 ==> #[trigger] eob_extra_cost[ctx][s] == cdf_rate(
                    fc.eob_extra_cdf@[(txs * 2 + plane) * 9 + ctx]@,
                    s,
                ) && -0x8000 <= eob_extra_cost[ctx][s] <= 0x8000,
        decreases 9 - i,
    {
        let v: Vec<i32> = cdf_rates(&fc.eob_extra_cdf[(txs * 2 + plane) * 9 + i], 2);
        eob_extra_cost[i] = [v[0], v[1]];
        i = i + 1;
    }
    let mut dc_sign_cost: [[i32; 2]; 3] = [[0; 2]; 3];
    let mut i: usize = 0;
    while i < 3
        invariant
            i <= 3,
            txs < 5,
            plane < 2,
            fc_wf(*fc),
            forall|ctx: int, s: int|
                0 <= ctx < i && 0 <= s < 2 ==> #[trigger] dc_sign_cost[ctx][s] == cdf_rate(
                    fc.dc_sign_cdf@[plane * 3 + ctx]@,
                    s,
                ) && -0x8000 <= dc_sign_cost[ctx][s] <= 0x8000,
        decreases 3 - i,
    {
        let v: Vec<i32> = cdf_rates(&fc.dc_sign_cdf[plane * 3 + i], 2);
        dc_sign_cost[i] = [v[0], v[1]];
        i = i + 1;
    }
    let br_txs: usize = if txs < 3 {
        txs
    } else {
        3
    };
    let mut lps_cost: [[i32; 26]; 21] = [[0; 26]; 21];
    let mut i: usize = 0;
    while i < 21
        invariant
            i <= 21,
            txs < 5,
            plane < 2,
            br_txs <= 3,
            fc_wf(*fc),
            forall|ctx: int, s: int|
                0 <= ctx < i && 0 <= s < 26 ==> #[trigger] lps_cost[ctx][s] == lps_entry(
                    fc.coeff_br_cdf@[(br_txs * 2 + plane) * 21 + ctx]@,
                    s,
                ) && -0x8000 <= lps_cost[ctx][s] <= 0x8000,
        decreases 21 - i,
    {
        lps_cost[i] = lps_row(&fc.coeff_br_cdf[(br_txs * 2 + plane) * 21 + i]);
        i = i + 1;
    }
    TxbCosts { txb_skip_cost, base_eob_cost, base_cost, eob_extra_cost, dc_sign_cost, lps_cost }
}

/// The end-of-block rates of one block size class and plane type.
fn eob_costs_of(table: &Vec<Vec<u16>>, symbols: usize, plane: usize) -> (c: EobCosts)
    requires
        cdf_table_wf(table@, 4, symbols as int),
        5 <= symbols <= 11,
        plane < 2,
    ensures
        is_eob_costs(c, table@, plane as int),
        eob_costs_wf(c),
{
    let mut eob_cost: [[i32; 11]; 2] = [[0; 11]; 2];
    let mut i: usize = 0;
    while i < 2
        invariant
            i <= 2,
            cdf_table_wf(table@, 4, symbols as int),
            5 <= symbols <= 11,
            plane < 2,
            forall|ctx: int, s: int|
                0 <= ctx < i && 0 <= s < 11 ==> #[trigger] eob_cost[ctx][s] == cdf_rate(
                    table@[plane * 2 + ctx]@,
                    s,
                ) && -0x8000 <= eob_cost[ctx][s] <= 0x8000,
        decreases 2 - i,
    {
        let v: Vec<i32> = cdf_rates(&table[plane * 2 + i], 11);
        eob_cost[i] = [v[0], v[1], v[2], v[3], v[4], v[5], v[6], v[7], v[8], v[9], v[10]];
        i = i + 1;
    }
    EobCosts { eob_cost }
}

/// `c` holds the end-of-block rates of a plane type.
pub open spec fn is_eob_costs(c: EobCosts, table: Seq<Vec<u16>>, plane: int) -> bool {
    forall|ctx: int, s: int|
        0 <= ctx < 2 && 0 <= s < 11 ==> #[trigger] c.eob_cost[ctx][s] == cdf_rate(
            table[plane * 2 + ctx]@,
            s,
        )
}

/// All coefficient rates of a frame.
pub struct CoeffCostTables {
    /// Two plane types per transform-size context.
    pub txb: Vec<TxbCosts>,
    /// Two plane types per block size class.
    pub eob: Vec<EobCosts>,
}

/// The tables are complete and bounded.
pub open spec fn cost_tables_wf(t: CoeffCostTables) -> bool {
    &&& t.txb@.len() == 10
    &&& t.eob@.len() == 14
    &&& forall|i: int| 0 <= i < 10 ==> txb_costs_wf(#[trigger] t.txb@[i])
    &&& forall|i: int| 0 <= i < 14 ==> eob_costs_wf(#[trigger] t.eob@[i])
}

impl CoeffCostTables {
    /// The rates of a transform-size context and plane type.
    pub fn txb(&self, txs_ctx: usize, plane: usize) -> (r: &TxbCosts)
        requires
            cost_tables_wf(*self),
            txs_ctx < 5,
            plane < 2,
        ensures
            *r == self.txb@[txs_ctx * 2 + plane],
            txb_costs_wf(*r),
    {
        &self.txb[txs_ctx * 2 + plane]
    }

    /// The end-of-block rates of a block size class and plane type.
    pub fn eob(&self, multi_size: usize, plane: usize) -> (r: &EobCosts)
        requires
            cost_tables_wf(*self),
            multi_size < 7,
            plane < 2,
        ensures
            *r == self.eob@[multi_size * 2 + plane],
            eob_costs_wf(*r),
    {
        &self.eob[multi_size * 2 + plane]
    }
}

/// The rates of the given distributions.
pub open spec fn are_cost_tables(t: CoeffCostTables, fc: CoeffFc) -> bool {
    &&& cost_tables_wf(t)
    &&& forall|i: int| 0 <= i < 10 ==> is_txb_costs(#[trigger] t.txb@[i], fc, i / 2, i % 2)
    &&& forall|i: int| 0 <= i < 14 ==> is_eob_costs(#[trigger] t.eob@[i], eob_flag_table(fc, i / 2), i % 2)
}

/// The rates of the default distributions of a quantizer index.
pub fn build_coeff_cost_tables<F: Fn(u8) -> CoeffFc>(base_qindex: u8, default_for_qindex: &F) -> (t: CoeffCostTables)
    requires
        call_requires(*default_for_qindex, (base_qindex,)),
        forall|fc: CoeffFc| #[trigger] call_ensures(*default_for_qindex, (base_qindex,), fc) ==> fc_wf(fc),
    ensures
        exists|fc: CoeffFc| #[trigger]
            call_ensures(*default_for_qindex, (base_qindex,), fc) && are_cost_tables(t, fc),
{
    let fc: CoeffFc = default_for_qindex(base_qindex);
    let t: CoeffCostTables = build_coeff_cost_tables_from_fc(&fc);
    assert(call_ensures(*default_for_qindex, (base_qindex,), fc));
    t
}

/// The rates of every transform-size context, block size class and plane
/// type under the given distributions.
pub fn build_coeff_cost_tables_from_fc(fc: &CoeffFc) -> (t: CoeffCostTables)
    requires
        fc_wf(*fc),
    ensures
        are_cost_tables(t, *fc),
{
    let mut txb: Vec<TxbCosts> = Vec::new();
    let mut i: usize = 0;
    while i < 10
        invariant
            i <= 10,
            fc_wf(*fc),
            txb@.len() == i,
            forall|j: int| 0 <= j < i ==> txb_costs_wf(#[trigger] txb@[j]),
            forall|j: int| 0 <= j < i ==> is_txb_costs(#[trigger] txb@[j], *fc, j / 2, j % 2),
        decreases 10 - i,
    {
        txb.push(txb_costs_from_fc(fc, i / 2, i % 2));
        i = i + 1;
    }
    let mut eob: Vec<EobCosts> = Vec::new();
    let mut k: usize = 0;
    while k < 14
        invariant
            k <= 14,
            fc_wf(*fc),
            eob@.len() == k,
            forall|j: int| 0 <= j < k ==> eob_costs_wf(#[trigger] eob@[j]),
            forall|j: int|
                0 <= j < k ==> is_eob_costs(#[trigger] eob@[j], eob_flag_table(*fc, j / 2), j % 2),
        decreases 14 - k,
    {
        let size: usize = k / 2;
        assert(cdf_table_wf(eob_flag_table(*fc, size as int), 4, 5 + size as int));
        let table: &Vec<Vec<u16>> = if size == 0 {
            &fc.eob_flag_cdf16
        } else if size == 1 {
            &fc.eob_flag_cdf32
        } else if size == 2 {
            &fc.eob_flag_cdf64
        } else if size == 3 {
            &fc.eob_flag_cdf128
        } else if size == 4 {
            &fc.eob_flag_cdf256
        } else if size == 5 {
            &fc.eob_flag_cdf512
        } else {
            &fc.eob_flag_cdf1024
        };
        eob.push(eob_costs_of(table, 5 + size, k % 2));
        k = k + 1;
    }
    CoeffCostTables { txb, eob }
}

} // verus!
