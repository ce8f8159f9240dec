//! How costs are rounded, what a unit signals, and which blocks it is filtered
//! in.

use vstd::arithmetic::div_mod::{lemma_fundamental_div_mod, lemma_mod_bound};
use vstd::arithmetic::power2::{lemma2_to64, lemma_pow2_pos, lemma_pow2_unfold, pow2};
use vstd::prelude::*;

use crate::sgr_search::decision::{bits_priced, excess_bits, nearest_double, nearest_double_nat, offset_weight};
use crate::sgr_search::refine::{tap_max, tap_min};
use crate::sgr_search::sweep::{
    block_filtered, block_start, candidates_of, filtered_sample, is_choice, lane_of, on_sweep, proc_side, solved,
    sweep_finds_the_first_least_error, swept, SgrBlock, SgrFiltered, SgrUnit,
};
use crate::sgr_search::{sgr_set, SgFilterCtrls, SgrprojInfo};

verus! {

proof fn lemma_excess(n: nat)
    requires
        0x20_0000_0000_0000 <= n,
    ensures
        0x10_0000_0000_0000 * pow2(excess_bits(n)) <= n < 0x20_0000_0000_0000 * pow2(excess_bits(n)),
        excess_bits(n) > 0,
    decreases n,
{
    let e = excess_bits(n);
    lemma_pow2_unfold(e);
    lemma2_to64();
    if n / 2 >= 0x20_0000_0000_0000 {
        lemma_excess(n / 2);
    } else {
        assert(excess_bits(n / 2) == 0);
    }
}

/// A double is exact up to 53 bits, and beyond that off by no more than one
/// part in 2^53: the nearest there is.
pub proof fn doubles_are_nearest(n: nat)
    ensures
        n < 0x20_0000_0000_0000 ==> nearest_double_nat(n) == n,
        (nearest_double_nat(n) - n) * 0x20_0000_0000_0000 <= n,
        (n - nearest_double_nat(n)) * 0x20_0000_0000_0000 <= n,
{
    let p = pow2(excess_bits(n)) as int;
    lemma_pow2_pos(excess_bits(n));
    lemma2_to64();
    let x = n as int;
    lemma_fundamental_div_mod(x, p);
    lemma_mod_bound(x, p);
    let (q, r) = (x / p, x % p);
    assert((q + 1) * p == q * p + p && p * q == q * p) by (nonlinear_arith);
    let d = nearest_double_nat(n) - n;
    assert(2 * d <= p && -2 * d <= p);
    if n < 0x20_0000_0000_0000 {
        assert(p == 1);
    } else {
        lemma_excess(n);
        assert(d * 0x20_0000_0000_0000 <= 0x10_0000_0000_0000 * p);
    }
}

/// A double of an integer is that of its magnitude, with its sign.
pub proof fn doubles_keep_their_sign(x: int)
    ensures
        nearest_double(-x) == -nearest_double(x),
        x >= 0 ==> nearest_double(x) >= 0,
{
    doubles_are_nearest(if x >= 0 {
        x as nat
    } else {
        (-x) as nat
    });
    lemma2_to64();
}

/// The first weight is coded from -96 to 31, the second from -32 to 95: 128
/// values each, counted from the lowest.
pub proof fn weights_are_coded_in_seven_bits(x: int)
    ensures
        tap_min(0) <= x <= tap_max(0) ==> 0 <= offset_weight(x, -96) < 128 && offset_weight(x, -96) == x + 96,
        tap_min(1) <= x <= tap_max(1) ==> 0 <= offset_weight(x, -32) < 128 && offset_weight(x, -32) == x + 32,
        tap_max(0) - tap_min(0) == 127,
        tap_max(1) - tap_min(1) == 127,
{
}

/// Only the weights of filters that run are paid for, each against that of the
/// unit before it; one that does not run is free.
pub proof fn only_running_filters_are_paid<F: Fn(u16, u16, u16, u16) -> i32>(
    info: SgrprojInfo,
    before: SgrprojInfo,
    price: F,
    b0: i32,
    b1: i32,
)
    requires
        bits_priced(info, before, price, b0, b1),
        -96 <= info.xqd[0] <= 31,
        -96 <= before.xqd[0] <= 31,
        -32 <= info.xqd[1] <= 95,
        -32 <= before.xqd[1] <= 95,
    ensures
        !sgr_set(info.ep as int).first() ==> b0 == 0,
        !sgr_set(info.ep as int).second() ==> b1 == 0,
        sgr_set(info.ep as int).first() ==> call_ensures(
            price,
            (128u16, 4u16, (before.xqd[0] + 96) as u16, (info.xqd[0] + 96) as u16),
            b0,
        ),
        sgr_set(info.ep as int).second() ==> call_ensures(
            price,
            (128u16, 4u16, (before.xqd[1] + 32) as u16, (info.xqd[1] + 32) as u16),
            b1,
        ),
{
}

/// A unit is filtered in blocks that start at whole multiples of their side and
/// end with it: each sample is that of the block it lies in, at its place
/// there.
pub proof fn samples_come_from_their_block<F: Fn(usize, usize, usize, usize) -> SgrBlock>(
    filter: F,
    second: bool,
    bx: int,
    by: int,
    c: int,
    r: int,
    width: int,
    height: int,
    side_x: int,
    side_y: int,
)
    requires
        0 <= bx,
        0 <= by,
        0 < side_x,
        0 < side_y,
        0 <= c < side_x,
        0 <= r < side_y,
    ensures
        ({
            let (x, y) = (bx * side_x, by * side_y);
            let w = if width - x < side_x {
                width - x
            } else {
                side_x
            };
            let h = if height - y < side_y {
                height - y
            } else {
                side_y
            };
            let b = block_filtered(filter, x as usize, y as usize, w as usize, h as usize);
            filtered_sample(filter, second, y + r, x + c, width, height, side_x, side_y) == if second {
                b.flt1@[r * w + c]
            } else {
                b.flt0@[r * w + c]
            }
        }),
{
    let (x, y) = (bx * side_x, by * side_y);
    vstd::arithmetic::div_mod::lemma_fundamental_div_mod_converse(x + c, side_x, bx, c);
    vstd::arithmetic::div_mod::lemma_fundamental_div_mod_converse(y + r, side_y, by, r);
    assert(block_start(x + c, side_x) == x);
    assert(block_start(y + r, side_y) == y);
}

/// Chroma that is subsampled is filtered in blocks of half the side; both
/// chroma planes go by the same controls.
pub proof fn chroma_blocks_are_half_as_large(plane: int)
    requires
        0 <= plane < 3,
    ensures
        proc_side(0, true) == 64,
        plane > 0 ==> 2 * proc_side(plane, true) == proc_side(plane, false),
        proc_side(plane, false) == 64,
        lane_of(1) == lane_of(2),
        lane_of(0) != lane_of(1),
        lane_of(0) == 0,
{
}

/// A unit signals the parameter set with the least error among those that are
/// tried, the first of them where there are several, with the weights found
/// for it; where none is tried, the first set without weights.
pub proof fn units_signal_their_best_set<F: Fn(i32, i32, i32) -> SgrFiltered>(
    info: SgrprojInfo,
    unit: SgrUnit,
    solve: F,
    w: i32,
    h: i32,
    ctrls: SgFilterCtrls,
    lane: int,
    e: int,
)
    requires
        is_choice(info, unit, solve, w, h, ctrls, lane),
        0 <= lane < 2,
        ctrls.ep_inc[lane] > 0,
    ensures
        ctrls.start_ep[lane] >= ctrls.end_ep[lane] ==> info.ep == 0 && info.xqd[0] == 0 && info.xqd[1] == 0,
        ctrls.start_ep[lane] < ctrls.end_ep[lane] ==> {
            let refine = ctrls.refine[lane];
            let best = unit.candidate(info.ep as int, solved(solve, info.ep as i32, w, h), refine);
            &&& info.xqd[0] == best.x0
            &&& info.xqd[1] == best.x1
            &&& ctrls.start_ep[lane] <= info.ep < ctrls.end_ep[lane]
            &&& (info.ep - ctrls.start_ep[lane]) % (ctrls.ep_inc[lane] as int) == 0
            &&& ctrls.start_ep[lane] <= e < ctrls.end_ep[lane] && (e - ctrls.start_ep[lane]) % (ctrls.ep_inc[lane] as int)
                == 0 ==> best.err <= unit.candidate(e, solved(solve, e as i32, w, h), refine).err
        },
{
    if ctrls.start_ep[lane] < ctrls.end_ep[lane] {
        let c = candidates_of(unit, solve, w, h, ctrls.refine[lane]);
        let (start, end, inc) = (ctrls.start_ep[lane] as int, ctrls.end_ep[lane] as int, ctrls.ep_inc[lane] as int);
        sweep_finds_the_first_least_error(c, start, end, inc);
        assert(on_sweep(e, start, end, inc) ==> (swept(c, start, end, inc, None)->0).1.err <= c(e).err);
    }
}

} // verus!
