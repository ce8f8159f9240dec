//! What restoring a unit costs, and whether and how it is restored.

use vstd::arithmetic::div_mod::{lemma_div_denominator, lemma_fundamental_div_mod, lemma_mod_bound};
use vstd::arithmetic::mul::lemma_mul_is_commutative;
use vstd::arithmetic::power2::{lemma2_to64, lemma_pow2_unfold, pow2};
use vstd::prelude::*;

use crate::arith::{abs_int, low_u16, shr_i64, unsigned_i32};
use crate::sgr_search::{
    sgr_params, sgr_set, SgrParamsType, SgrprojInfo, SGRPROJ_PARAMS_BITS, SGRPROJ_PRJ_MIN0, SGRPROJ_PRJ_MIN1,
};

verus! {

/// How many low bits a number has beyond the 53 that a double holds.
pub open spec fn excess_bits(n: nat) -> nat
    decreases n,
{
    if n < 0x20_0000_0000_0000 {
        0
    } else {
        1 + excess_bits(n / 2)
    }
}

/// The double nearest to a natural number, ties to the even one.
pub open spec fn nearest_double_nat(n: nat) -> nat {
    let p = pow2(excess_bits(n));
    let q = n / p;
    let r = n % p;
    if 2 * r > p || (2 * r == p && q % 2 == 1) {
        (q + 1) * p
    } else {
        q * p
    }
}

/// The double nearest to an integer, ties to the even one.
pub open spec fn nearest_double(x: int) -> int {
    if x < 0 {
        -(nearest_double_nat((-x) as nat) as int)
    } else {
        nearest_double_nat(x as nat) as int
    }
}

fn round_natural(n: u128) -> (r: u128)
    requires
        n <= 0x4000_0010_0000_0000_0000_0000_0000_0000,
    ensures
        r == nearest_double_nat(n as nat),
        (r - n) * 0x10_0000_0000_0000 <= n,
{
    let mut q: u128 = n;
    let mut p: u128 = 1;
    let ghost mut e: nat = 0;
    proof {
        lemma2_to64();
    }
    while q >= 0x20_0000_0000_0000
        invariant
            n <= 0x4000_0010_0000_0000_0000_0000_0000_0000,
            p == pow2(e),
            1 <= p,
            p > 1 ==> q >= 0x10_0000_0000_0000,
            q == n / p,
            q * p <= n,
            excess_bits(n as nat) == e + excess_bits(q as nat),
        decreases q,
    {
        proof {
            lemma_pow2_unfold(e + 1);
            lemma_div_denominator(n as int, p as int, 2);
            assert(p * 0x20_0000_0000_0000 <= q * p) by (nonlinear_arith)
                requires
                    q >= 0x20_0000_0000_0000,
                    p >= 1,
            ;
            assert((q / 2) * (2 * p) <= q * p) by (nonlinear_arith)
                requires
                    (q / 2) * 2 <= q,
                    p >= 1,
            ;
            e = e + 1;
        }
        q = q / 2;
        p = p * 2;
    }
    proof {
        lemma_fundamental_div_mod(n as int, p as int);
        lemma_mod_bound(n as int, p as int);
        lemma_mul_is_commutative(p as int, q as int);
        assert((q + 1) * p == q * p + p) by (nonlinear_arith);
        if p > 1 {
            assert(p * 0x10_0000_0000_0000 <= q * p) by (nonlinear_arith)
                requires
                    q >= 0x10_0000_0000_0000,
                    p >= 1,
            ;
        }
    }
    let r: u128 = n - q * p;
    if r > p - r || (r == p - r && q % 2 == 1) {
        q * p + p
    } else {
        q * p
    }
}

/// The double nearest to an integer, ties to the even one.
fn round_integer(x: i128) -> (r: i128)
    requires
        -0x4000_0010_0000_0000_0000_0000_0000_0000 <= x <= 0x4000_0010_0000_0000_0000_0000_0000_0000,
    ensures
        r == nearest_double(x as int),
        (abs_int(r as int) - abs_int(x as int)) * 0x10_0000_0000_0000 <= abs_int(x as int),
{
    if x < 0 {
        -(round_natural((-x) as u128) as i128)
    } else {
        round_natural(x as u128) as i128
    }
}

/// Cost of a rate and a distortion in double precision, in units of `1/512`:
/// `rate * rdmult / 512 + dist * 128`, each operation rounded.
pub open spec fn double_cost(rdmult: int, rate: int, dist: int) -> int {
    nearest_double(
        nearest_double(nearest_double(rate) * nearest_double(rdmult)) + nearest_double(dist) * 65536,
    )
}

fn rdcost_dbl(rdmult: i64, rate: i64, dist: i64) -> (r: i128)
    ensures
        r == double_cost(rdmult as int, rate as int, dist as int),
{
    let m: i128 = round_integer(rdmult as i128);
    let n: i128 = round_integer(rate as i128);
    let d: i128 = round_integer(dist as i128);
    proof {
        assert(abs_int(n * m) <= 0x4000_0000_0400_0000_0000_0000_0000_0000) by (nonlinear_arith)
            requires
                -0x8000_0000_0000_1000 <= m <= 0x8000_0000_0000_1000,
                -0x8000_0000_0000_1000 <= n <= 0x8000_0000_0000_1000,
        ;
    }
    round_integer(round_integer(n * m) + d * 65536)
}

/// A weight counted from the start of its range, in 16 bits.
pub open spec fn offset_weight(x: int, min: int) -> u16 {
    ((x - min) % 0x1_0000) as u16
}

/// `price` has returned the bits of each weight that is signalled.
pub open spec fn bits_priced<F: Fn(u16, u16, u16, u16) -> i32>(
    info: SgrprojInfo,
    ref_info: SgrprojInfo,
    price: F,
    b0: i32,
    b1: i32,
) -> bool {
    let set = sgr_set(info.ep as int);
    &&& if set.first() {
        call_ensures(
            price,
            (128, 4, offset_weight(ref_info.xqd[0] as int, -96), offset_weight(info.xqd[0] as int, -96)),
            b0,
        )
    } else {
        b0 == 0
    }
    &&& if set.second() {
        call_ensures(
            price,
            (128, 4, offset_weight(ref_info.xqd[1] as int, -32), offset_weight(info.xqd[1] as int, -32)),
            b1,
        )
    } else {
        b1 == 0
    }
}

/// The bits of a unit are counted without overflow, whatever `price` returns.
pub open spec fn bits_fit<F: Fn(u16, u16, u16, u16) -> i32>(info: SgrprojInfo, ref_info: SgrprojInfo, price: F) -> bool {
    &&& 0 <= info.ep < 16
    &&& info.xqd[0] <= i32::MAX - 96
    &&& info.xqd[1] <= i32::MAX - 32
    &&& ref_info.xqd[0] <= i32::MAX - 96
    &&& ref_info.xqd[1] <= i32::MAX - 32
    &&& forall|n: u16, k: u16, r: u16, v: u16| #[trigger] call_requires(price, (n, k, r, v))
    &&& sgr_set(info.ep as int).first() ==> forall|b: i32| #[trigger]
        call_ensures(
            price,
            (128, 4, offset_weight(ref_info.xqd[0] as int, -96), offset_weight(info.xqd[0] as int, -96)),
            b,
        ) ==> i32::MIN <= 4 + b <= i32::MAX
    &&& forall|b0: i32, b1: i32| #[trigger]
        bits_priced(info, ref_info, price, b0, b1) ==> i32::MIN <= 4 + b0 + b1 <= i32::MAX
}

fn offset_of(x: i32, min: i32) -> (r: u16)
    requires
        i32::MIN <= x - min <= i32::MAX,
    ensures
        r == offset_weight(x as int, min as int),
{
    let d: i32 = x - min;
    let u: u32 = unsigned_i32(d);
    proof {
        assert(d as int % 0x1_0000_0000 % 0x1_0000 == d as int % 0x1_0000);
    }
    low_u16(u)
}

/// Bits of what a unit signals.
pub fn count_sgrproj_bits<F: Fn(u16, u16, u16, u16) -> i32>(
    info: &SgrprojInfo,
    ref_info: &SgrprojInfo,
    price: &F,
) -> (bits: i32)
    requires
        bits_fit(*info, *ref_info, *price),
    ensures
        exists|b0: i32, b1: i32| #[trigger] bits_priced(*info, *ref_info, *price, b0, b1) && bits == 4 + b0 + b1,
{
    let params: SgrParamsType = sgr_params(info.ep as usize);
    let b0: i32 = if params.r[0] > 0 {
        let r: u16 = offset_of(ref_info.xqd[0], SGRPROJ_PRJ_MIN0);
        let v: u16 = offset_of(info.xqd[0], SGRPROJ_PRJ_MIN0);
        price(128, 4, r, v)
    } else {
        0
    };
    let b1: i32 = if params.r[1] > 0 {
        let r: u16 = offset_of(ref_info.xqd[1], SGRPROJ_PRJ_MIN1);
        let v: u16 = offset_of(info.xqd[1], SGRPROJ_PRJ_MIN1);
        price(128, 4, r, v)
    } else {
        0
    };
    assert(bits_priced(*info, *ref_info, *price, b0, b1));
    SGRPROJ_PARAMS_BITS + b0 + b1
}

/// Whether a unit is restored, and what it then adds to the frame's rate and
/// distortion.
#[derive(Debug, Clone, Copy, PartialEq, Eq, Structural)]
pub struct SgrprojFinish {
    pub chose_sgr: bool,
    pub bits: i64,
    pub sse: i64,
}

/// Rate of a flag and of `pcost` bits.
pub open spec fn rate_with(flag: int, pcost: int) -> int {
    flag + pcost * 512
}

/// Cost of a candidate, in units of `1/512`.
pub open spec fn candidate_cost(rdmult: int, rate: int, sse: int) -> int {
    double_cost(rdmult, rate / 16, sse)
}

/// Whether a unit is restored that `pcost` bits are signalled for.
pub open spec fn is_finish(
    r: SgrprojFinish,
    rdmult: int,
    restore_cost: [i64; 2],
    pcost: int,
    sse_none: i64,
    sse_sgr: i64,
) -> bool {
    let with = rate_with(restore_cost[1] as int, pcost);
    let chose_sgr = candidate_cost(rdmult, with, sse_sgr as int) < candidate_cost(
        rdmult,
        restore_cost[0] as int,
        sse_none as int,
    );
    r == (SgrprojFinish {
        chose_sgr,
        bits: if chose_sgr {
            with as i64
        } else {
            restore_cost[0]
        },
        sse: if chose_sgr {
            sse_sgr
        } else {
            sse_none
        },
    })
}

/// Decides whether a unit is restored. A tie leaves it alone.
pub fn sgrproj_finish_decision<F: Fn(u16, u16, u16, u16) -> i32>(
    rdmult: i64,
    sgrproj_restore_cost: [i64; 2],
    info: &SgrprojInfo,
    ref_info: &SgrprojInfo,
    sse_none: i64,
    sse_sgr: i64,
    price: &F,
) -> (r: SgrprojFinish)
    requires
        bits_fit(*info, *ref_info, *price),
        forall|b0: i32, b1: i32| #[trigger]
            bits_priced(*info, *ref_info, *price, b0, b1) ==> i64::MIN <= rate_with(
                sgrproj_restore_cost[1] as int,
                4 + b0 + b1,
            ) <= i64::MAX,
    ensures
        exists|b0: i32, b1: i32| #[trigger]
            bits_priced(*info, *ref_info, *price, b0, b1) && is_finish(
                r,
                rdmult as int,
                sgrproj_restore_cost,
                4 + b0 + b1,
                sse_none,
                sse_sgr,
            ),
{
    let bits_none: i64 = sgrproj_restore_cost[0];
    let bits_sgr: i64 = sgrproj_restore_cost[1] + count_sgrproj_bits(info, ref_info, price) as i64 * 512;
    proof {
        lemma2_to64();
    }
    let cost_none: i128 = rdcost_dbl(rdmult, shr_i64(bits_none, 4), sse_none);
    let cost_sgr: i128 = rdcost_dbl(rdmult, shr_i64(bits_sgr, 4), sse_sgr);
    let chose_sgr: bool = cost_sgr < cost_none;
    SgrprojFinish {
        chose_sgr,
        bits: if chose_sgr {
            bits_sgr
        } else {
            bits_none
        },
        sse: if chose_sgr {
            sse_sgr
        } else {
            sse_none
        },
    }
}

/// A unit is left alone.
pub const RESTORE_NONE: usize = 0;

/// A unit is restored by a Wiener filter.
pub const RESTORE_WIENER: usize = 1;

/// A unit is restored by the self-guided filter.
pub const RESTORE_SGRPROJ: usize = 2;

/// Number of ways a unit can be restored.
pub const RESTORE_SWITCHABLE_TYPES: usize = 3;

/// How a unit is restored, and what it adds to the frame's rate and
/// distortion.
#[derive(Debug, Clone, Copy, PartialEq, Eq, Structural)]
pub struct SwitchableChoice {
    pub best_rtype: usize,
    pub bits: i64,
    pub sse: i64,
}

/// What the decision about a unit rests on.
pub struct Offers {
    pub rdmult: int,
    pub flag: Seq<int>,
    pub sse: Seq<int>,
    pub wiener: Option<int>,
    pub sgr: Option<int>,
}

impl Offers {
    /// A way of restoring is on offer.
    pub open spec fn offered(self, r: int) -> bool {
        r == RESTORE_NONE || (r == RESTORE_WIENER && self.wiener is Some) || (r == RESTORE_SGRPROJ && self.sgr is Some)
    }

    /// Its rate.
    pub open spec fn rate(self, r: int) -> int {
        rate_with(
            self.flag[r],
            if r == RESTORE_WIENER {
                self.wiener->0
            } else if r == RESTORE_SGRPROJ {
                self.sgr->0
            } else {
                0
            },
        )
    }

    /// Its cost.
    pub open spec fn cost(self, r: int) -> int {
        candidate_cost(self.rdmult, self.rate(r), self.sse[r])
    }

    /// The cheapest of those on offer; the first of equals.
    pub open spec fn best(self) -> int {
        let a = if self.wiener is Some && self.cost(1) < self.cost(0) {
            1int
        } else {
            0
        };
        if self.sgr is Some && self.cost(2) < self.cost(a) {
            2
        } else {
            a
        }
    }
}

/// The offers of a unit. A candidate that is not available is not on offer.
pub open spec fn offers_of(
    rdmult: i64,
    flag: [i64; 3],
    sse: [i64; 3],
    wiener_available: bool,
    coeff_pcost_wiener: i32,
    sgr_available: bool,
    coeff_pcost_sgr: i32,
) -> Offers {
    Offers {
        rdmult: rdmult as int,
        flag: seq![flag[0] as int, flag[1] as int, flag[2] as int],
        sse: seq![sse[0] as int, sse[1] as int, sse[2] as int],
        wiener: if wiener_available {
            Some(coeff_pcost_wiener as int)
        } else {
            None
        },
        sgr: if sgr_available {
            Some(coeff_pcost_sgr as int)
        } else {
            None
        },
    }
}

/// How a unit with these offers is restored.
pub open spec fn is_choice(c: SwitchableChoice, o: Offers) -> bool {
    &&& c.best_rtype == o.best()
    &&& c.bits == o.rate(o.best())
    &&& c.sse == o.sse[o.best()]
}

/// Decides how a unit is restored.
pub fn switchable_decision(
    rdmult: i64,
    switchable_restore_cost: [i64; 3],
    sse: [i64; 3],
    wiener_available: bool,
    coeff_pcost_wiener: i32,
    sgr_available: bool,
    coeff_pcost_sgr: i32,
) -> (c: SwitchableChoice)
    requires
        wiener_available ==> i64::MIN <= rate_with(switchable_restore_cost[1] as int, coeff_pcost_wiener as int)
            <= i64::MAX,
        sgr_available ==> i64::MIN <= rate_with(switchable_restore_cost[2] as int, coeff_pcost_sgr as int) <= i64::MAX,
    ensures
        is_choice(
            c,
            offers_of(
                rdmult,
                switchable_restore_cost,
                sse,
                wiener_available,
                coeff_pcost_wiener,
                sgr_available,
                coeff_pcost_sgr,
            ),
        ),
{
    let ghost o = offers_of(
        rdmult,
        switchable_restore_cost,
        sse,
        wiener_available,
        coeff_pcost_wiener,
        sgr_available,
        coeff_pcost_sgr,
    );
    proof {
        lemma2_to64();
    }
    let mut best_rtype: usize = RESTORE_NONE;
    let mut best_bits: i64 = switchable_restore_cost[0];
    let mut best_cost: i128 = rdcost_dbl(rdmult, shr_i64(best_bits, 4), sse[0]);
    assert(best_cost == o.cost(0));
    if wiener_available {
        let bits: i64 = switchable_restore_cost[1] + coeff_pcost_wiener as i64 * 512;
        let cost: i128 = rdcost_dbl(rdmult, shr_i64(bits, 4), sse[1]);
        assert(cost == o.cost(1));
        if cost < best_cost {
            best_cost = cost;
            best_bits = bits;
            best_rtype = RESTORE_WIENER;
        }
    }
    if sgr_available {
        let bits: i64 = switchable_restore_cost[2] + coeff_pcost_sgr as i64 * 512;
        let cost: i128 = rdcost_dbl(rdmult, shr_i64(bits, 4), sse[2]);
        assert(cost == o.cost(2));
        if cost < best_cost {
            best_bits = bits;
            best_rtype = RESTORE_SGRPROJ;
        }
    }
    SwitchableChoice { best_rtype, bits: best_bits, sse: sse[best_rtype] }
}

/// The choice is on offer, no offer is cheaper, and no earlier one is as
/// cheap.
pub proof fn ties_go_to_the_earlier_type(o: Offers)
    ensures
        o.offered(o.best()),
        forall|r: int| #[trigger]
            o.offered(r) ==> o.cost(o.best()) <= o.cost(r) && (r < o.best() ==> o.cost(o.best()) < o.cost(r)),
{
}

/// Costs below `2^53` are exact: rounding does not change the decision.
pub proof fn small_costs_are_exact(rdmult: int, rate: int, dist: int)
    requires
        abs_int(rdmult) < 0x20_0000_0000_0000,
        abs_int(rate) < 0x20_0000_0000_0000,
        abs_int(rate * rdmult) < 0x20_0000_0000_0000,
        abs_int(dist) < 0x20_0000_0000_0000,
        abs_int(rate * rdmult + dist * 65536) < 0x20_0000_0000_0000,
    ensures
        double_cost(rdmult, rate, dist) == rate * rdmult + dist * 65536,
{
    lemma_small_is_exact(rdmult);
    lemma_small_is_exact(rate);
    lemma_small_is_exact(dist);
    lemma_small_is_exact(rate * rdmult);
    lemma_small_is_exact(rate * rdmult + dist * 65536);
}

proof fn lemma_small_is_exact(x: int)
    requires
        abs_int(x) < 0x20_0000_0000_0000,
    ensures
        nearest_double(x) == x,
{
    lemma2_to64();
    let n = abs_int(x) as nat;
    assert(excess_bits(n) == 0);
    assert(n / 1 == n && n % 1 == 0);
}

/// A sixteenth of the rate at the multiplier, and the squared error: what a
/// way of restoring costs, times 512.
pub open spec fn weighed(rdmult: int, bits: int, sse: int) -> int {
    (bits / 16) * rdmult + 65536 * sse
}

/// The products and sums of a cost stay below `2^53`.
pub open spec fn is_small(rdmult: int, bits: int, sse: int) -> bool {
    &&& abs_int(rdmult) < 0x20_0000_0000_0000
    &&& abs_int(bits) < 0x20_0000_0000_0000
    &&& abs_int(sse) < 0x20_0000_0000_0000
    &&& abs_int((bits / 16) * rdmult) < 0x20_0000_0000_0000
    &&& abs_int(weighed(rdmult, bits, sse)) < 0x20_0000_0000_0000
}

/// A candidate is weighed by its rate and its squared error, exactly as long
/// as the cost stays below `2^53`.
pub proof fn candidates_are_weighed(rdmult: int, bits: int, sse: int)
    requires
        is_small(rdmult, bits, sse),
    ensures
        candidate_cost(rdmult, bits, sse) == (bits / 16) * rdmult + 65536 * sse,
{
    small_costs_are_exact(rdmult, bits / 16, sse);
}

/// Of two candidates with the same squared error, the one with the lower rate
/// is the cheaper, and of two with the same rate the one with the lower
/// squared error.
pub proof fn rate_and_error_both_count(rdmult: int, bits: int, more_bits: int, sse: int, more_sse: int)
    requires
        0 < rdmult,
        bits / 16 < more_bits / 16,
        sse < more_sse,
        is_small(rdmult, bits, sse),
        is_small(rdmult, more_bits, sse),
        is_small(rdmult, bits, more_sse),
    ensures
        candidate_cost(rdmult, bits, sse) < candidate_cost(rdmult, more_bits, sse),
        candidate_cost(rdmult, bits, sse) < candidate_cost(rdmult, bits, more_sse),
{
    candidates_are_weighed(rdmult, bits, sse);
    candidates_are_weighed(rdmult, more_bits, sse);
    candidates_are_weighed(rdmult, bits, more_sse);
    vstd::arithmetic::mul::lemma_mul_strict_inequality(bits / 16, more_bits / 16, rdmult);
}

/// A unit is restored exactly where that costs less than leaving it alone, and
/// it then adds the rate of its flag and its weights, in units of `1/512` bit,
/// and the squared error of the restored samples.
pub proof fn units_are_restored_where_it_pays(
    r: SgrprojFinish,
    rdmult: int,
    restore_cost: [i64; 2],
    pcost: int,
    sse_none: i64,
    sse_sgr: i64,
)
    requires
        is_finish(r, rdmult, restore_cost, pcost, sse_none, sse_sgr),
        i64::MIN <= restore_cost[1] + 512 * pcost <= i64::MAX,
        is_small(rdmult, restore_cost[0] as int, sse_none as int),
        is_small(rdmult, restore_cost[1] + 512 * pcost, sse_sgr as int),
    ensures
        r.chose_sgr <==> ((restore_cost[1] + 512 * pcost) / 16) * rdmult + 65536 * sse_sgr < (restore_cost[0] as int
            / 16) * rdmult + 65536 * sse_none,
        r.chose_sgr ==> r.bits == restore_cost[1] + 512 * pcost && r.sse == sse_sgr,
        !r.chose_sgr ==> r.bits == restore_cost[0] && r.sse == sse_none,
{
    candidates_are_weighed(rdmult, restore_cost[0] as int, sse_none as int);
    candidates_are_weighed(rdmult, restore_cost[1] + 512 * pcost, sse_sgr as int);
}

/// A unit is restored in the way that costs least, by its rate and its squared
/// error: no way that is available is cheaper, and none that comes before it
/// is as cheap. What it adds is the rate of the flag and of the coefficients
/// of that way, and its squared error.
pub proof fn the_cheapest_restoration_is_taken(
    c: SwitchableChoice,
    rdmult: i64,
    flag: [i64; 3],
    sse: [i64; 3],
    wiener_available: bool,
    wiener: i32,
    sgr_available: bool,
    sgr: i32,
)
    requires
        is_choice(c, offers_of(rdmult, flag, sse, wiener_available, wiener, sgr_available, sgr)),
        is_small(rdmult as int, flag[0] as int, sse[0] as int),
        wiener_available ==> is_small(rdmult as int, flag[1] + 512 * wiener, sse[1] as int),
        sgr_available ==> is_small(rdmult as int, flag[2] + 512 * sgr, sse[2] as int),
    ensures
        ({
            let spent = (c.bits as int / 16) * rdmult + 65536 * c.sse;
            let alone = (flag[0] as int / 16) * rdmult + 65536 * sse[0];
            let by_wiener = ((flag[1] + 512 * wiener) / 16) * rdmult + 65536 * sse[1];
            let by_sgr = ((flag[2] + 512 * sgr) / 16) * rdmult + 65536 * sse[2];
            &&& c.best_rtype == 0 ==> c.bits == flag[0] && c.sse == sse[0]
            &&& c.best_rtype == 1 ==> wiener_available && c.bits == flag[1] + 512 * wiener && c.sse == sse[1]
            &&& c.best_rtype == 2 ==> sgr_available && c.bits == flag[2] + 512 * sgr && c.sse == sse[2]
            &&& c.best_rtype <= 2
            &&& spent <= alone
            &&& c.best_rtype > 0 ==> spent < alone
            &&& wiener_available ==> spent <= by_wiener
            &&& wiener_available && c.best_rtype == 2 ==> spent < by_wiener
            &&& sgr_available ==> spent <= by_sgr
        }),
{
    candidates_are_weighed(rdmult as int, flag[0] as int, sse[0] as int);
    if wiener_available {
        candidates_are_weighed(rdmult as int, flag[1] + 512 * wiener, sse[1] as int);
    }
    if sgr_available {
        candidates_are_weighed(rdmult as int, flag[2] + 512 * sgr, sse[2] as int);
    }
}

} // verus!
