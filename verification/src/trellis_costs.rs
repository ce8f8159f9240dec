//! What optimizing a block weighs: at every coefficient it visits, the level it
//! leaves costs no more than the one it could have left instead.

use vstd::arithmetic::power2::pow2;
use vstd::prelude::*;

use crate::arith::{abs_int, max_int, min_int};
use crate::coeff_ctx::{br_ctx, br_ctx_eob_spec, eob_ctx, nz_ctx};
use crate::quant::with_sign;
use crate::trellis::{
    cleared, eob_rate, eob_step, eob_walk, first_step, general_step, golomb_rate, optimized, plain_end, simple_step,
    simple_walk, skip_step, TrellisEnv, TrellisState,
};
use crate::trellis_laws::{
    exact_end, ledger, lemma_cleared_values, lemma_first, lemma_ledger_eob, lemma_skip, lemma_tame_eob,
    lemma_tame_general, lemma_tame_simple, listed, mirrored, scan_distinct, tame,
};

verus! {

/// Cost of a rate and a distortion: the rate at the multiplier, in units of
/// 512, to the nearest, and 128 times the distortion.
#[verifier::opaque]
pub open spec fn weighed(e: TrellisEnv, rate: int, dist: int) -> int {
    (rate * e.o.rdmult + 256) / 512 + 128 * dist
}

/// Squared error of reconstructing the coefficient `t` to `d`, at the scale of
/// the transform.
#[verifier::opaque]
pub open spec fn squared_error(e: TrellisEnv, t: int, d: int) -> int {
    let gap = (t - d) * pow2(e.shift());
    gap * gap
}

/// The position is scanned after `si`.
pub open spec fn beyond(scan: Seq<u16>, si: int, p: int) -> bool {
    exists|i: int| si < i < scan.len() && (#[trigger] scan[i]) as int == p
}

/// The levels as they stand when the walk comes to `si`: those scanned after
/// it are done, the others have not been touched.
pub open spec fn met(scan: Seq<u16>, before: Seq<i32>, after: Seq<i32>, si: int) -> Seq<i32> {
    Seq::new(
        before.len(),
        |p: int|
            if beyond(scan, si, p) {
                after[p]
            } else {
                before[p]
            },
    )
}

/// Bits of a sign: the one of DC has a context, the others are raw.
pub open spec fn sign_bits(e: TrellisEnv, ci: int, level: int, like: int) -> int {
    if level == 0 {
        0
    } else if ci == 0 {
        e.o.txb_costs.dc_sign_cost[e.o.dc_sign_ctx as int][if like < 0 {
            1int
        } else {
            0int
        }] as int
    } else {
        512
    }
}

/// Bits of the part of a level above two.
pub open spec fn upper_bits(lps: Seq<i32>, level: int) -> int {
    if level > 2 {
        lps[min_int(level - 3, 12)] + golomb_rate(level)
    } else {
        0
    }
}

/// Bits of a level that is not the last one of its block, among the levels
/// `q`.
#[verifier::opaque]
pub open spec fn level_bits(e: TrellisEnv, q: Seq<i32>, ci: int, level: int, like: int) -> int {
    let (size, class) = (e.o.tx_size as int, e.o.tx_class as int);
    let c = e.o.txb_costs;
    c.base_cost[nz_ctx(q, e.w(), e.h(), ci, size, class)][min_int(level, 3)] + sign_bits(e, ci, level, like)
        + upper_bits(c.lps_cost[br_ctx(q, e.w(), e.h(), ci, class)]@, level)
}

/// Bits of the last level of a block.
#[verifier::opaque]
pub open spec fn last_bits(e: TrellisEnv, si: int, level: int, like: int) -> int {
    let ci = e.scan@[si] as int;
    let c = e.o.txb_costs;
    c.base_eob_cost[eob_ctx(e.w(), e.h(), si)][min_int(level, 3) - 1] + sign_bits(e, ci, level, like) + upper_bits(
        c.lps_cost[br_ctx_eob_spec(e.w(), ci, e.o.tx_class as int)]@,
        level,
    )
}

/// Of a sign only whether it is negative counts.
proof fn lemma_bits_like(e: TrellisEnv, q: Seq<i32>, si: int, level: int, a: int, b: int)
    requires
        level == 0 || (a < 0) == (b < 0),
    ensures
        level_bits(e, q, e.scan@[si] as int, level, a) == level_bits(e, q, e.scan@[si] as int, level, b),
        last_bits(e, si, level, a) == last_bits(e, si, level, b),
{
    reveal(level_bits);
    reveal(last_bits);
}

/// Bits of the end of a block.
pub open spec fn end_bits(e: TrellisEnv, eob: int) -> int {
    eob_rate(eob, *e.o.eob_costs, *e.o.txb_costs, e.o.tx_class as int)
}

/// Nonzero levels scanned after `si` and before `eob`.
pub open spec fn count_after(scan: Seq<u16>, q: Seq<i32>, si: int, eob: int) -> int
    decreases eob - si,
{
    if eob <= si + 1 {
        0
    } else {
        count_after(scan, q, si + 1, eob) + if q[scan[si + 1] as int] != 0 {
            1int
        } else {
            0
        }
    }
}

/// Bits of the levels scanned after `si`, and of the end of the block.
pub open spec fn tail_bits(e: TrellisEnv, q0: Seq<i32>, q: Seq<i32>, eob: int, si: int) -> int
    decreases eob - si,
{
    if eob <= si + 1 {
        end_bits(e, eob)
    } else {
        let ci = e.scan@[si + 1] as int;
        let v = q[ci] as int;
        tail_bits(e, q0, q, eob, si + 1) + if si + 2 == eob {
            last_bits(e, si + 1, abs_int(v), v)
        } else {
            level_bits(e, met(e.scan@, q0, q, si + 1), ci, abs_int(v), v)
        }
    }
}

/// What coding the levels scanned after `si` changes in the squared error,
/// against coding none.
pub open spec fn tail_error(e: TrellisEnv, d: Seq<i32>, eob: int, si: int) -> int
    decreases eob - si,
{
    if eob <= si + 1 {
        0
    } else {
        let ci = e.scan@[si + 1] as int;
        let t = e.tcoeff@[ci] as int;
        tail_error(e, d, eob, si + 1) + squared_error(e, t, d[ci] as int) - squared_error(e, t, 0)
    }
}

/// Nothing up to `si` has been touched.
spec fn fresh(scan: Seq<u16>, q0: Seq<i32>, q: Seq<i32>, si: int) -> bool {
    &&& q.len() == q0.len()
    &&& forall|p: int| 0 <= p < q.len() && !beyond(scan, si, p) ==> #[trigger] q[p] == q0[p]
}

/// Everything after `si` is the same.
spec fn agree(scan: Seq<u16>, a: Seq<i32>, b: Seq<i32>, si: int) -> bool {
    &&& a.len() == b.len()
    &&& forall|p: int| 0 <= p < a.len() && beyond(scan, si, p) ==> #[trigger] a[p] == b[p]
}

proof fn lemma_not_beyond(scan: Seq<u16>, si: int)
    requires
        scan_distinct(scan),
        0 <= si < scan.len(),
    ensures
        !beyond(scan, si, scan[si] as int),
        beyond(scan, si - 1, scan[si] as int),
        forall|p: int| beyond(scan, si, p) ==> #[trigger] beyond(scan, si - 1, p),
        forall|p: int| #[trigger] beyond(scan, si - 1, p) ==> beyond(scan, si, p) || p == scan[si] as int,
{
    assert forall|p: int| beyond(scan, si, p) implies #[trigger] beyond(scan, si - 1, p) by {
        let i = choose|i: int| si < i < scan.len() && (#[trigger] scan[i]) as int == p;
        assert(si - 1 < i && scan[i] as int == p);
    }
    assert(scan[si] as int == scan[si] as int && si - 1 < si < scan.len());
}

proof fn lemma_met(scan: Seq<u16>, q0: Seq<i32>, q: Seq<i32>, f: Seq<i32>, si: int)
    requires
        fresh(scan, q0, q, si),
        agree(scan, q, f, si),
    ensures
        met(scan, q0, f, si) == q,
{
    assert(met(scan, q0, f, si) =~= q);
}

proof fn lemma_agree_down(scan: Seq<u16>, a: Seq<i32>, b: Seq<i32>, si: int)
    requires
        scan_distinct(scan),
        0 <= si < scan.len(),
        agree(scan, a, b, si - 1),
    ensures
        agree(scan, a, b, si),
{
    lemma_not_beyond(scan, si);
    assert forall|p: int| 0 <= p < a.len() && beyond(scan, si, p) implies #[trigger] a[p] == b[p] by {
        assert(beyond(scan, si - 1, p));
    }
}

proof fn lemma_write(scan: Seq<u16>, q0: Seq<i32>, q: Seq<i32>, si: int, v: i32)
    requires
        scan_distinct(scan),
        0 <= si < scan.len(),
        0 <= (scan[si] as int) < q.len(),
        fresh(scan, q0, q, si),
    ensures
        fresh(scan, q0, q.update(scan[si] as int, v), si - 1),
        agree(scan, q, q.update(scan[si] as int, v), si),
        fresh(scan, q0, q, si - 1),
{
    lemma_not_beyond(scan, si);
    assert forall|p: int| 0 <= p < q.len() && !beyond(scan, si - 1, p) implies #[trigger] q.update(
        scan[si] as int,
        v,
    )[p] == q0[p] && q[p] == q0[p] by {
        assert(!beyond(scan, si, p));
    }
}

/// A level of the plain phase, priced by the rows of its contexts: kept, and
/// lowered by what the rows say that saves.
#[verifier::opaque]
pub open spec fn plain_choice(e: TrellisEnv, q0: Seq<i32>, d0: Seq<i32>, q: Seq<i32>, si: int) -> bool {
    let ci = e.scan@[si] as int;
    let b = met(e.scan@, q0, q, si);
    let (size, class) = (e.o.tx_size as int, e.o.tx_class as int);
    let base = e.o.txb_costs.base_cost[nz_ctx(b, e.w(), e.h(), ci, size, class)]@;
    let lps = e.o.txb_costs.lps_cost[br_ctx(b, e.w(), e.h(), ci, class)]@;
    let level = abs_int(q0[ci] as int);
    let t = abs_int(e.tcoeff@[ci] as int);
    let kept = abs_int(d0[ci] as int);
    let low = e.recon(ci, level - 1);
    let bits = base[min_int(level, 3)] + 512 + upper_bits(lps, level);
    let saved = (if level <= 3 {
        base[level + 4] as int
    } else {
        0
    }) + (if level > 2 {
        golomb_rate(level) - golomb_rate(level - 1) + if level <= 15 {
            lps[min_int(level - 3, 12) + 13] as int
        } else {
            0
        }
    } else {
        0
    });
    let keeping = (bits * e.o.rdmult + 256) / 512 + 128 * squared_error(e, t, kept);
    let lowering = ((bits - saved) * e.o.rdmult + 256) / 512 + 128 * squared_error(e, t, low);
    &&& q[ci] == q0[ci] || (level > 0 && q[ci] == with_sign(level - 1, q0[ci] as int))
    &&& q[ci] != q0[ci] ==> lowering < keeping && t <= kept
    &&& q[ci] == q0[ci] && level > 0 && t <= kept ==> keeping <= lowering
}

#[verifier::spinoff_prover]
#[verifier::rlimit(60)]
proof fn lemma_plain_step(e: TrellisEnv, q0: Seq<i32>, d0: Seq<i32>, s: TrellisState, f: Seq<i32>, si: int)
    requires
        e.wf(),
        scan_distinct(e.scan@),
        0 <= si < e.scan@.len(),
        e.buffers_wf(q0, d0),
        mirrored(e, q0, d0),
        tame(e, q0, s.q, s.d),
        fresh(e.scan@, q0, s.q, si),
        agree(e.scan@, simple_step(e, s, si).q, f, si - 1),
    ensures
        plain_choice(e, q0, d0, f, si),
{
    reveal(squared_error);
    reveal(plain_choice);
    let n = simple_step(e, s, si);
    let ci = e.scan@[si] as int;
    lemma_not_beyond(e.scan@, si);
    assert(s.q[ci] == q0[ci]);
    assert(s.d[ci] == d0[ci]);
    lemma_write(e.scan@, q0, s.q, si, n.q[ci]);
    assert(n.q =~= s.q.update(ci, n.q[ci]));
    lemma_agree_down(e.scan@, n.q, f, si);
    assert(agree(e.scan@, s.q, f, si));
    lemma_met(e.scan@, q0, s.q, f, si);
    assert(f[ci] == n.q[ci]);
    lemma_tame_simple(e, q0, s, si);
}

proof fn lemma_plain_walk(
    e: TrellisEnv,
    q0: Seq<i32>,
    d0: Seq<i32>,
    s: TrellisState,
    si: int,
    end: int,
)
    requires
        e.wf(),
        scan_distinct(e.scan@),
        e.buffers_wf(q0, d0),
        mirrored(e, q0, d0),
        tame(e, q0, s.q, s.d),
        fresh(e.scan@, q0, s.q, si),
        si < e.scan@.len(),
        1 <= end,
    ensures
        ({
            let n = simple_walk(e, s, si, end);
            let at = if si >= end {
                end - 1
            } else {
                si
            };
            &&& tame(e, q0, n.q, n.d)
            &&& fresh(e.scan@, q0, n.q, at)
            &&& agree(e.scan@, s.q, n.q, si)
            &&& agree(e.scan@, s.d, n.d, si)
            &&& n.eob == s.eob
            &&& forall|k: int| end <= k <= si ==> #[trigger] plain_choice(e, q0, d0, n.q, k)
        }),
    decreases si - end + 1,
{
    if si >= end {
        let n = simple_step(e, s, si);
        let ci = e.scan@[si] as int;
        lemma_tame_simple(e, q0, s, si);
        lemma_write(e.scan@, q0, s.q, si, n.q[ci]);
        lemma_write(e.scan@, s.d, s.d, si, n.d[ci]);
        assert(n.q =~= s.q.update(ci, n.q[ci]));
        assert(n.d =~= s.d.update(ci, n.d[ci]));
        lemma_plain_walk(e, q0, d0, n, si - 1, end);
        let f = simple_walk(e, n, si - 1, end);
        lemma_plain_step(e, q0, d0, s, f.q, si);
        lemma_agree_down(e.scan@, n.q, f.q, si);
        lemma_agree_down(e.scan@, n.d, f.d, si);
    }
}

/// A level that is weighed on its own, DC or the last one: its two prices, and
/// the cheaper taken. `keep` and `low` are the bits of the level and of the
/// next lower one.
pub open spec fn own_choice(
    e: TrellisEnv,
    q0: Seq<i32>,
    d0: Seq<i32>,
    q: Seq<i32>,
    ci: int,
    keep: int,
    low: int,
) -> bool {
    let level = abs_int(q0[ci] as int);
    let t = e.tcoeff@[ci] as int;
    let keeping = (keep * e.o.rdmult + 256) / 512 + 128 * squared_error(e, t, d0[ci] as int);
    let lowering = (low * e.o.rdmult + 256) / 512 + 128 * squared_error(
        e,
        t,
        with_sign(e.recon(ci, level - 1), q0[ci] as int),
    );
    &&& level == 0 ==> q[ci] == 0
    &&& level > 0 && lowering < keeping ==> q[ci] == with_sign(level - 1, q0[ci] as int)
    &&& level > 0 && keeping <= lowering ==> q[ci] == q0[ci]
}

/// DC, where it is not the last level, is weighed on its own.
pub open spec fn dc_choice(e: TrellisEnv, q0: Seq<i32>, d0: Seq<i32>, q: Seq<i32>) -> bool {
    let ci = e.scan@[0] as int;
    let b = met(e.scan@, q0, q, 0);
    let level = abs_int(q0[ci] as int);
    own_choice(
        e,
        q0,
        d0,
        q,
        ci,
        level_bits(e, b, ci, level, q0[ci] as int),
        level_bits(e, b, ci, level - 1, q0[ci] as int),
    )
}

proof fn lemma_dc(e: TrellisEnv, q0: Seq<i32>, d0: Seq<i32>, s: TrellisState)
    requires
        e.wf(),
        scan_distinct(e.scan@),
        e.scan@.len() > 0,
        e.buffers_wf(q0, d0),
        mirrored(e, q0, d0),
        tame(e, q0, s.q, s.d),
        fresh(e.scan@, q0, s.q, 0),
        s.eob > 1,
    ensures
        dc_choice(e, q0, d0, general_step(e, s, 0).q),
        agree(e.scan@, s.q, general_step(e, s, 0).q, 0),
        agree(e.scan@, s.d, general_step(e, s, 0).d, 0),
{
    reveal(level_bits);
    reveal(squared_error);
    let n = general_step(e, s, 0);
    let ci = e.scan@[0] as int;
    lemma_not_beyond(e.scan@, 0);
    assert(s.q[ci] == q0[ci]);
    assert(s.d[ci] == d0[ci]);
    lemma_write(e.scan@, q0, s.q, 0, n.q[ci]);
    lemma_write(e.scan@, s.d, s.d, 0, n.d[ci]);
    assert(n.q =~= s.q.update(ci, n.q[ci]));
    assert(n.d =~= s.d.update(ci, n.d[ci]));
    lemma_met(e.scan@, q0, s.q, n.q, 0);
    lemma_tame_general(e, q0, s, 0);
}

proof fn lemma_count_less(scan: Seq<u16>, a: Seq<i32>, b: Seq<i32>, si: int, ea: int, eb: int)
    requires
        -1 <= si,
        ea <= eb <= scan.len(),
        forall|i: int| si < i < ea && a[(#[trigger] scan[i]) as int] != 0 ==> b[scan[i] as int] != 0,
    ensures
        0 <= count_after(scan, a, si, ea) <= count_after(scan, b, si, eb),
    decreases eb - si,
{
    if ea > si + 1 {
        lemma_count_less(scan, a, b, si + 1, ea, eb);
    } else if eb > si + 1 {
        lemma_count_less(scan, a, b, si + 1, ea, eb);
    }
}

proof fn lemma_count_same(scan: Seq<u16>, a: Seq<i32>, b: Seq<i32>, si: int, eob: int)
    requires
        -1 <= si,
        eob <= scan.len(),
        forall|i: int| si < i < eob ==> a[(#[trigger] scan[i]) as int] == b[scan[i] as int],
    ensures
        count_after(scan, a, si, eob) == count_after(scan, b, si, eob),
    decreases eob - si,
{
    if eob > si + 1 {
        lemma_count_same(scan, a, b, si + 1, eob);
    }
}

proof fn lemma_count_falls(scan: Seq<u16>, q: Seq<i32>, si: int, sj: int, eob: int)
    requires
        si <= sj,
    ensures
        0 <= count_after(scan, q, sj, eob) <= count_after(scan, q, si, eob),
    decreases eob - si,
{
    if eob > si + 1 {
        if si < sj {
            lemma_count_falls(scan, q, si + 1, sj, eob);
        } else {
            lemma_count_falls(scan, q, si + 1, si + 1, eob);
        }
    }
}

proof fn lemma_tail_same(e: TrellisEnv, q0: Seq<i32>, a: Seq<i32>, b: Seq<i32>, eob: int, si: int)
    requires
        e.wf(),
        scan_distinct(e.scan@),
        -1 <= si,
        eob <= e.scan@.len(),
        a.len() == q0.len(),
        e.w() * e.h() <= q0.len(),
        agree(e.scan@, a, b, si),
    ensures
        tail_bits(e, q0, a, eob, si) == tail_bits(e, q0, b, eob, si),
        tail_error(e, a, eob, si) == tail_error(e, b, eob, si),
    decreases eob - si,
{
    if eob > si + 1 {
        lemma_agree_down(e.scan@, a, b, si + 1);
        lemma_tail_same(e, q0, a, b, eob, si + 1);
        lemma_not_beyond(e.scan@, si + 1);
        assert(met(e.scan@, q0, a, si + 1) =~= met(e.scan@, q0, b, si + 1));
        assert(a[e.scan@[si + 1] as int] == b[e.scan@[si + 1] as int]);
    }
}

/// A level near the end of the block: of keeping it and lowering it, with all
/// that is scanned after it, the cheaper is taken; and unless sharpness is
/// asked for, neither ending the block at it nor ending it at the lowered
/// level would cost less.
#[verifier::opaque]
pub open spec fn end_choice(
    e: TrellisEnv,
    q0: Seq<i32>,
    d0: Seq<i32>,
    q: Seq<i32>,
    d: Seq<i32>,
    eob: int,
    si: int,
) -> bool {
    let ci = e.scan@[si] as int;
    let b = met(e.scan@, q0, q, si);
    let like = q0[ci] as int;
    let level = abs_int(like);
    let t = e.tcoeff@[ci] as int;
    let low = with_sign(e.recon(ci, level - 1), like);
    let gain = squared_error(e, t, d0[ci] as int) - squared_error(e, t, 0);
    let gain_low = squared_error(e, t, low) - squared_error(e, t, 0);
    let after = tail_bits(e, q0, q, eob, si);
    let error = tail_error(e, d, eob, si);
    let keeping = weighed(e, after + level_bits(e, b, ci, level, like), error + gain);
    let lowering = weighed(e, after + level_bits(e, b, ci, level - 1, like), error + gain_low);
    let taken = weighed(e, tail_bits(e, q0, q, eob, si - 1), tail_error(e, d, eob, si - 1));
    let ending = weighed(e, end_bits(e, si + 1) + last_bits(e, si, level, like), gain);
    let ending_low = weighed(e, end_bits(e, si + 1) + last_bits(e, si, level - 1, like), gain_low);
    &&& level == 0 ==> q[ci] == 0
    &&& level > 0 ==> {
        &&& lowering < keeping ==> q[ci] == with_sign(level - 1, like)
        &&& keeping <= lowering ==> q[ci] == like
        &&& taken <= keeping
        &&& taken <= lowering
        &&& !e.o.sharpness_flag ==> taken <= ending
        &&& !e.o.sharpness_flag && level > 1 ==> taken <= ending_low
    }
}

/// The sums of the walk are those of the levels it has left.
spec fn summed(e: TrellisEnv, q0: Seq<i32>, s: TrellisState, si: int) -> bool {
    &&& s.rate == tail_bits(e, q0, s.q, s.eob, si)
    &&& s.dist == tail_error(e, s.d, s.eob, si)
    &&& s.nz.len() == count_after(e.scan@, s.q, si, s.eob)
}

proof fn lemma_zero_error(e: TrellisEnv, q0: Seq<i32>, q: Seq<i32>, d: Seq<i32>, ci: int)
    requires
        e.wf(),
        tame(e, q0, q, d),
        0 <= ci < e.w() * e.h(),
        q[ci] == 0,
    ensures
        d[ci] == 0,
{
    crate::trellis::lemma_recon_zero(e.step(ci), e.shift());
    assert(d[ci] == with_sign(e.recon(ci, abs_int(q[ci] as int)), q[ci] as int));
}

/// What a step near the end of the block does with a nonzero level.
spec fn weighed_step(e: TrellisEnv, s: TrellisState, n: TrellisState, si: int) -> bool {
    let ci = e.scan@[si] as int;
    let like = s.q[ci] as int;
    let level = abs_int(like);
    let t = e.tcoeff@[ci] as int;
    let low = with_sign(e.recon(ci, level - 1), like);
    let gain = squared_error(e, t, s.d[ci] as int) - squared_error(e, t, 0);
    let gain_low = squared_error(e, t, low) - squared_error(e, t, 0);
    let bits = level_bits(e, s.q, ci, level, like);
    let bits_low = level_bits(e, s.q, ci, level - 1, like);
    let keeping = weighed(e, s.rate + bits, s.dist + gain);
    let lowering = weighed(e, s.rate + bits_low, s.dist + gain_low);
    let ending = weighed(e, end_bits(e, si + 1) + last_bits(e, si, level, like), gain);
    let ending_low = weighed(e, end_bits(e, si + 1) + last_bits(e, si, level - 1, like), gain_low);
    let v = n.q[ci] as int;
    if n.eob == s.eob {
        &&& n.q == s.q.update(ci, n.q[ci])
        &&& n.d == s.d.update(ci, n.d[ci])
        &&& lowering < keeping ==> v == with_sign(level - 1, like) && n.d[ci] == low as i32 && n.rate == s.rate
            + bits_low && n.dist == s.dist + gain_low
        &&& keeping <= lowering ==> v == like && n.d[ci] == s.d[ci] && n.rate == s.rate + bits && n.dist == s.dist
            + gain
        &&& !e.o.sharpness_flag ==> weighed(e, n.rate, n.dist) <= ending
        &&& !e.o.sharpness_flag && level > 1 ==> weighed(e, n.rate, n.dist) <= ending_low
        &&& n.nz.len() == s.nz.len() + if v != 0 {
            1int
        } else {
            0
        }
    } else {
        &&& n.eob == si + 1
        &&& !e.o.sharpness_flag
        &&& n.q == cleared(s.q, s.nz).update(ci, n.q[ci])
        &&& n.d == cleared(s.d, s.nz).update(ci, n.d[ci])
        &&& v != 0
        &&& level > 1 && ending_low < ending ==> v == with_sign(level - 1, like) && n.d[ci] == low as i32 && n.rate
            == end_bits(e, si + 1) + last_bits(e, si, level - 1, like) && n.dist == gain_low
        &&& level == 1 || ending <= ending_low ==> v == like && n.d[ci] == s.d[ci] && n.rate == end_bits(e, si + 1)
            + last_bits(e, si, level, like) && n.dist == gain
        &&& weighed(e, n.rate, n.dist) < keeping
        &&& weighed(e, n.rate, n.dist) < lowering
        &&& n.nz.len() == 1
    }
}

#[verifier::spinoff_prover]
#[verifier::rlimit(60)]
proof fn lemma_weighed_step(e: TrellisEnv, s: TrellisState, si: int)
    requires
        e.wf(),
        e.w() * e.h() <= s.q.len(),
        e.w() * e.h() <= s.d.len(),
        0 <= si < s.eob - 1,
        si < e.scan@.len(),
        s.q[e.scan@[si] as int] != 0,
        s.q[e.scan@[si] as int] > i32::MIN,
        cleared(s.q, s.nz).len() == s.q.len(),
        cleared(s.d, s.nz).len() == s.d.len(),
        cleared(s.q, s.nz)[e.scan@[si] as int] == s.q[e.scan@[si] as int],
        cleared(s.d, s.nz)[e.scan@[si] as int] == s.d[e.scan@[si] as int],
    ensures
        weighed_step(e, s, eob_step(e, s, si), si),
{
    reveal(level_bits);
    reveal(last_bits);
    reveal(weighed);
    reveal(squared_error);
    let n = eob_step(e, s, si);
    let ci = e.scan@[si] as int;
    if n.eob == s.eob {
        assert(n.q =~= s.q.update(ci, n.q[ci]));
        assert(n.d =~= s.d.update(ci, n.d[ci]));
    } else {
        assert(n.q =~= cleared(s.q, s.nz).update(ci, n.q[ci]));
        assert(n.d =~= cleared(s.d, s.nz).update(ci, n.d[ci]));
    }
}

/// The last level of a block whose end has not moved: a one is kept, and of
/// the others the cheaper level is taken.
#[verifier::opaque]
pub open spec fn last_choice(e: TrellisEnv, q0: Seq<i32>, d0: Seq<i32>, q: Seq<i32>, eob: int) -> bool {
    let ci = e.scan@[eob - 1] as int;
    let level = abs_int(q0[ci] as int);
    if level <= 1 {
        q[ci] == q0[ci]
    } else {
        own_choice(
            e,
            q0,
            d0,
            q,
            ci,
            last_bits(e, eob - 1, level, q0[ci] as int),
            last_bits(e, eob - 1, level - 1, q0[ci] as int),
        )
    }
}

/// Ending a block at `si` pays: it costs less than any of the two levels there
/// with all that stood after it, and of the two levels the block can end at the
/// cheaper is taken. `x`, `dx` and `ex` are the levels, reconstructions and end
/// that stood.
#[verifier::opaque]
pub open spec fn ending_pays(
    e: TrellisEnv,
    q0: Seq<i32>,
    d0: Seq<i32>,
    x: Seq<i32>,
    dx: Seq<i32>,
    ex: int,
    q: Seq<i32>,
    d: Seq<i32>,
    eob: int,
) -> bool {
    let si = eob - 1;
    let ci = e.scan@[si] as int;
    let b = met(e.scan@, q0, x, si);
    let like = q0[ci] as int;
    let level = abs_int(like);
    let t = e.tcoeff@[ci] as int;
    let gain = squared_error(e, t, d0[ci] as int) - squared_error(e, t, 0);
    let gain_low = squared_error(e, t, with_sign(e.recon(ci, level - 1), like)) - squared_error(e, t, 0);
    let after = tail_bits(e, q0, x, ex, si);
    let error = tail_error(e, dx, ex, si);
    let keeping = weighed(e, after + level_bits(e, b, ci, level, like), error + gain);
    let lowering = weighed(e, after + level_bits(e, b, ci, level - 1, like), error + gain_low);
    let taken = weighed(e, tail_bits(e, q0, q, eob, si - 1), tail_error(e, d, eob, si - 1));
    let ending = weighed(e, end_bits(e, eob) + last_bits(e, si, level, like), gain);
    let ending_low = weighed(e, end_bits(e, eob) + last_bits(e, si, level - 1, like), gain_low);
    &&& !e.o.sharpness_flag
    &&& level > 0
    &&& taken < keeping
    &&& taken < lowering
    &&& level > 1 && ending_low < ending ==> q[ci] == with_sign(level - 1, like)
    &&& level == 1 || ending <= ending_low ==> q[ci] == like
}

/// Every level scanned after `si`, but for the last, is the cheaper one.
pub open spec fn all_end_choices(
    e: TrellisEnv,
    q0: Seq<i32>,
    d0: Seq<i32>,
    q: Seq<i32>,
    d: Seq<i32>,
    eob: int,
    si: int,
) -> bool {
    forall|k: int| si < k < eob - 1 ==> #[trigger] end_choice(e, q0, d0, q, d, eob, k)
}

/// A block as it stood at some point of the end phase.
pub struct Standing {
    pub q: Seq<i32>,
    pub d: Seq<i32>,
    pub eob: int,
}

/// The end of a block has moved from where it stood because that paid; every
/// level that was scanned after the new end was the cheaper one.
pub open spec fn end_moved(e: TrellisEnv, q0: Seq<i32>, d0: Seq<i32>, from: Standing, to: Standing) -> bool {
    &&& 0 < to.eob < from.eob
    &&& all_end_choices(e, q0, d0, from.q, from.d, from.eob, to.eob - 1)
    &&& ending_pays(e, q0, d0, from.q, from.d, from.eob, to.q, to.d, to.eob)
}

/// The ends a block has had: the first is the one it came with, with the
/// cheaper level there, and each has moved from the one before it because that
/// paid.
pub open spec fn are_ends(e: TrellisEnv, q0: Seq<i32>, d0: Seq<i32>, eob0: int, h: Seq<Standing>) -> bool {
    &&& h.len() >= 1
    &&& h[0].eob == eob0
    &&& last_choice(e, q0, d0, h[0].q, eob0)
    &&& forall|j: int| 0 <= j < h.len() - 1 ==> #[trigger] end_moved(e, q0, d0, h[j], h[j + 1])
}

/// The end of a block is where it was, or has moved there because that paid.
pub open spec fn ends_well(
    e: TrellisEnv,
    q0: Seq<i32>,
    d0: Seq<i32>,
    eob0: int,
    q: Seq<i32>,
    d: Seq<i32>,
    eob: int,
) -> bool {
    exists|h: Seq<Standing>| #[trigger] are_ends(e, q0, d0, eob0, h) && h.last() == (Standing { q, d, eob })
}

proof fn lemma_pays_same(
    e: TrellisEnv,
    q0: Seq<i32>,
    d0: Seq<i32>,
    x: Seq<i32>,
    dx: Seq<i32>,
    ex: int,
    qa: Seq<i32>,
    da: Seq<i32>,
    qb: Seq<i32>,
    db: Seq<i32>,
    eob: int,
)
    requires
        e.wf(),
        scan_distinct(e.scan@),
        1 <= eob <= e.scan@.len(),
        qa.len() == q0.len(),
        da.len() == d0.len(),
        e.w() * e.h() <= q0.len(),
        e.w() * e.h() <= d0.len(),
        agree(e.scan@, qa, qb, eob - 2),
        agree(e.scan@, da, db, eob - 2),
        ending_pays(e, q0, d0, x, dx, ex, qa, da, eob),
    ensures
        ending_pays(e, q0, d0, x, dx, ex, qb, db, eob),
{
    reveal(ending_pays);
    lemma_not_beyond(e.scan@, eob - 1);
    lemma_tail_same(e, q0, qa, qb, eob, eob - 2);
    lemma_tail_same(e, d0, da, db, eob, eob - 2);
    assert(qa[e.scan@[eob - 1] as int] == qb[e.scan@[eob - 1] as int]);
}

proof fn lemma_ends_well_same(
    e: TrellisEnv,
    q0: Seq<i32>,
    d0: Seq<i32>,
    eob0: int,
    qa: Seq<i32>,
    da: Seq<i32>,
    qb: Seq<i32>,
    db: Seq<i32>,
    eob: int,
)
    requires
        e.wf(),
        scan_distinct(e.scan@),
        1 <= eob <= eob0 <= e.scan@.len(),
        qa.len() == q0.len(),
        da.len() == d0.len(),
        e.w() * e.h() <= q0.len(),
        e.w() * e.h() <= d0.len(),
        agree(e.scan@, qa, qb, eob - 2),
        agree(e.scan@, da, db, eob - 2),
        ends_well(e, q0, d0, eob0, qa, da, eob),
    ensures
        ends_well(e, q0, d0, eob0, qb, db, eob),
{
    let h = choose|h: Seq<Standing>| #[trigger]
        are_ends(e, q0, d0, eob0, h) && h.last() == (Standing { q: qa, d: da, eob });
    let n = h.len() - 1;
    let g = h.update(n, Standing { q: qb, d: db, eob });
    if n > 0 {
        assert(end_moved(e, q0, d0, h[n - 1], h[n - 1 + 1]));
        lemma_pays_same(e, q0, d0, h[n - 1].q, h[n - 1].d, h[n - 1].eob, qa, da, qb, db, eob);
    } else {
        lemma_tail_last(e, q0, d0, qa, qb, eob, eob);
    }
    assert forall|j: int| 0 <= j < g.len() - 1 implies #[trigger] end_moved(e, q0, d0, g[j], g[j + 1]) by {
        assert(end_moved(e, q0, d0, h[j], h[j + 1]));
    }
    assert(are_ends(e, q0, d0, eob0, g));
}

proof fn lemma_ends_moved(
    e: TrellisEnv,
    q0: Seq<i32>,
    d0: Seq<i32>,
    eob0: int,
    from: Standing,
    to: Standing,
)
    requires
        ends_well(e, q0, d0, eob0, from.q, from.d, from.eob),
        end_moved(e, q0, d0, from, to),
    ensures
        ends_well(e, q0, d0, eob0, to.q, to.d, to.eob),
{
    let h = choose|h: Seq<Standing>| #[trigger]
        are_ends(e, q0, d0, eob0, h) && h.last() == (Standing { q: from.q, d: from.d, eob: from.eob });
    let g = h.push(to);
    assert forall|j: int| 0 <= j < g.len() - 1 implies #[trigger] end_moved(e, q0, d0, g[j], g[j + 1]) by {
        if j < h.len() - 1 {
            assert(end_moved(e, q0, d0, h[j], h[j + 1]));
        }
    }
    assert(are_ends(e, q0, d0, eob0, g));
    assert(g.last() == (Standing { q: to.q, d: to.d, eob: to.eob }));
}

proof fn lemma_ends_start(e: TrellisEnv, q0: Seq<i32>, d0: Seq<i32>, eob0: int, q: Seq<i32>, d: Seq<i32>)
    requires
        last_choice(e, q0, d0, q, eob0),
    ensures
        ends_well(e, q0, d0, eob0, q, d, eob0),
{
    let h = seq![Standing { q, d, eob: eob0 }];
    assert(are_ends(e, q0, d0, eob0, h));
    assert(h.last() == (Standing { q, d, eob: eob0 }));
}

/// The walk has come to `si`, its sums are those of the levels it left, and it
/// has touched nothing else.
spec fn on_course(e: TrellisEnv, q0: Seq<i32>, d0: Seq<i32>, eob0: int, s: TrellisState, si: int) -> bool {
    &&& s.eob <= eob0 <= e.scan@.len()
    &&& ends_well(e, q0, d0, eob0, s.q, s.d, s.eob)
    &&& all_end_choices(e, q0, d0, s.q, s.d, s.eob, si)
    &&& tame(e, q0, s.q, s.d)
    &&& fresh(e.scan@, q0, s.q, si)
    &&& fresh(e.scan@, d0, s.d, si)
    &&& ledger(e, s, si)
    &&& summed(e, q0, s, si)
}

proof fn lemma_stay(e: TrellisEnv, q0: Seq<i32>, d0: Seq<i32>, eob0: int, s: TrellisState, n: TrellisState, si: int)
    requires
        e.wf(),
        scan_distinct(e.scan@),
        0 <= si,
        e.w() * e.h() <= q0.len(),
        e.w() * e.h() <= d0.len(),
        on_course(e, q0, d0, eob0, s, si),
        n.eob == s.eob,
        n.q == s.q.update(e.scan@[si] as int, n.q[e.scan@[si] as int]),
        n.d == s.d.update(e.scan@[si] as int, n.d[e.scan@[si] as int]),
    ensures
        fresh(e.scan@, q0, n.q, si - 1),
        fresh(e.scan@, d0, n.d, si - 1),
        agree(e.scan@, s.q, n.q, si),
        agree(e.scan@, s.d, n.d, si),
        met(e.scan@, q0, n.q, si) == s.q,
        tail_bits(e, q0, n.q, n.eob, si) == s.rate,
        tail_error(e, n.d, n.eob, si) == s.dist,
        count_after(e.scan@, n.q, si, n.eob) == s.nz.len(),
        forall|i: int| si < i < n.eob ==> n.q[(#[trigger] e.scan@[i]) as int] == s.q[e.scan@[i] as int],
        s.q[e.scan@[si] as int] == q0[e.scan@[si] as int],
        s.d[e.scan@[si] as int] == d0[e.scan@[si] as int],
        ends_well(e, q0, d0, eob0, n.q, n.d, n.eob),
        all_end_choices(e, q0, d0, n.q, n.d, n.eob, si),
{
    let ci = e.scan@[si] as int;
    let scan = e.scan@;
    lemma_not_beyond(scan, si);
    assert(s.q[ci] == q0[ci] && s.d[ci] == d0[ci]);
    lemma_write(scan, q0, s.q, si, n.q[ci]);
    lemma_write(scan, d0, s.d, si, n.d[ci]);
    lemma_met(scan, q0, s.q, n.q, si);
    lemma_tail_same(e, q0, s.q, n.q, s.eob, si);
    lemma_tail_same(e, d0, s.d, n.d, s.eob, si);
    assert forall|i: int| si < i < s.eob implies s.q[(#[trigger] scan[i]) as int] == n.q[scan[i] as int] by {
        assert(scan[si] != scan[i]);
    }
    lemma_count_same(scan, s.q, n.q, si, s.eob);
    lemma_further(scan, s.q, n.q, si, s.eob - 2);
    lemma_further(scan, s.d, n.d, si, s.eob - 2);
    lemma_ends_well_same(e, q0, d0, eob0, s.q, s.d, n.q, n.d, s.eob);
    assert forall|k: int| si < k < n.eob - 1 implies #[trigger] end_choice(e, q0, d0, n.q, n.d, n.eob, k) by {
        assert(end_choice(e, q0, d0, s.q, s.d, s.eob, k));
        lemma_further(scan, s.q, n.q, si, k - 1);
        lemma_further(scan, s.d, n.d, si, k - 1);
        lemma_choice_same(e, q0, d0, s.q, s.d, n.q, n.d, s.eob, k);
    }
}

proof fn lemma_fresh_cleared(e: TrellisEnv, q0: Seq<i32>, q: Seq<i32>, s: TrellisState, si: int)
    requires
        e.wf(),
        scan_distinct(e.scan@),
        0 <= si,
        e.w() * e.h() <= q.len(),
        ledger(e, s, si),
        fresh(e.scan@, q0, q, si),
    ensures
        fresh(e.scan@, q0, cleared(q, s.nz), si),
        cleared(q, s.nz)[e.scan@[si] as int] == q[e.scan@[si] as int],
{
    let scan = e.scan@;
    lemma_not_beyond(scan, si);
    lemma_cleared_values(q, s.nz);
    assert forall|p: int| s.nz.contains(p) implies #[trigger] beyond(scan, si, p) by {
        let j = choose|j: int| 0 <= j < s.nz.len() && s.nz[j] == p;
        assert(listed(scan, si, s.eob, s.nz[j]));
        let i = choose|i: int| si < i < s.eob && (#[trigger] scan[i]) as int == s.nz[j];
        assert(si < i < scan.len() && scan[i] as int == s.nz[j]);
    }
    assert forall|p: int| 0 <= p < q.len() && !beyond(scan, si, p) implies #[trigger] cleared(q, s.nz)[p] == q0[p] by {
        assert(!s.nz.contains(p));
    }
}

/// A step near the end of the block has been taken.
spec fn stepped(e: TrellisEnv, q0: Seq<i32>, d0: Seq<i32>, eob0: int, s: TrellisState, n: TrellisState, si: int) -> bool {
    &&& on_course(e, q0, d0, eob0, n, si - 1)
    &&& n.eob == s.eob || n.eob == si + 1
    &&& n.eob == s.eob ==> agree(e.scan@, s.q, n.q, si) && agree(e.scan@, s.d, n.d, si)
    &&& n.eob <= s.eob
    &&& shrunk(e.scan@, s.q, n.q, si, n.eob)
}

/// No level that was zero is nonzero, after `si` and before `eob`.
spec fn shrunk(scan: Seq<u16>, a: Seq<i32>, b: Seq<i32>, si: int, eob: int) -> bool {
    forall|i: int| si < i < eob && b[(#[trigger] scan[i]) as int] != 0 ==> a[scan[i] as int] != 0
}

proof fn lemma_stay_step(e: TrellisEnv, q0: Seq<i32>, d0: Seq<i32>, eob0: int, s: TrellisState, n: TrellisState, si: int)
    requires
        e.wf(),
        scan_distinct(e.scan@),
        e.w() * e.h() <= q0.len(),
        e.w() * e.h() <= d0.len(),
        0 <= si,
        on_course(e, q0, d0, eob0, s, si),
        tame(e, q0, n.q, n.d),
        ledger(e, n, si - 1),
        n.eob == s.eob,
        s.q[e.scan@[si] as int] != 0,
        weighed_step(e, s, n, si),
    ensures
        stepped(e, q0, d0, eob0, s, n, si),
{
    let ci = e.scan@[si] as int;
    lemma_stay(e, q0, d0, eob0, s, n, si);
    crate::trellis_laws::lemma_low_fits(e, q0, s.q, s.d, ci);
    lemma_stay_choice(e, q0, d0, s, n, si);
}

proof fn lemma_stay_choice(e: TrellisEnv, q0: Seq<i32>, d0: Seq<i32>, s: TrellisState, n: TrellisState, si: int)
    requires
        e.wf(),
        0 <= si < s.eob - 1,
        n.eob == s.eob,
        s.q[e.scan@[si] as int] != 0,
        weighed_step(e, s, n, si),
        met(e.scan@, q0, n.q, si) == s.q,
        tail_bits(e, q0, n.q, n.eob, si) == s.rate,
        tail_error(e, n.d, n.eob, si) == s.dist,
        count_after(e.scan@, n.q, si, n.eob) == s.nz.len(),
        s.q[e.scan@[si] as int] == q0[e.scan@[si] as int],
        s.d[e.scan@[si] as int] == d0[e.scan@[si] as int],
        ({
            let ci = e.scan@[si] as int;
            let low = with_sign(e.recon(ci, abs_int(s.q[ci] as int) - 1), s.q[ci] as int);
            low as i32 == low
        }),
    ensures
        summed(e, q0, n, si - 1),
        end_choice(e, q0, d0, n.q, n.d, n.eob, si),
{
    let ci = e.scan@[si] as int;
    let level = abs_int(s.q[ci] as int);
    lemma_bits_like(e, s.q, si, level - 1, n.q[ci] as int, s.q[ci] as int);
    reveal(end_choice);
}

proof fn lemma_cut_step(e: TrellisEnv, q0: Seq<i32>, d0: Seq<i32>, eob0: int, s: TrellisState, n: TrellisState, si: int)
    requires
        e.wf(),
        scan_distinct(e.scan@),
        e.w() * e.h() <= q0.len(),
        e.w() * e.h() <= d0.len(),
        0 <= si,
        on_course(e, q0, d0, eob0, s, si),
        tame(e, q0, n.q, n.d),
        ledger(e, n, si - 1),
        n.eob != s.eob,
        s.q[e.scan@[si] as int] != 0,
        weighed_step(e, s, n, si),
    ensures
        stepped(e, q0, d0, eob0, s, n, si),
{
    lemma_bits_like(e, s.q, si, abs_int(s.q[e.scan@[si] as int] as int) - 1, n.q[e.scan@[si] as int] as int, s.q[e.scan@[si] as int] as int);
    let ci = e.scan@[si] as int;
    let scan = e.scan@;
    lemma_fresh_cleared(e, q0, s.q, s, si);
    lemma_fresh_cleared(e, d0, s.d, s, si);
    let (cq, cd) = (cleared(s.q, s.nz), cleared(s.d, s.nz));
    lemma_write(scan, q0, cq, si, n.q[ci]);
    lemma_write(scan, d0, cd, si, n.d[ci]);
    crate::trellis_laws::lemma_low_fits(e, q0, s.q, s.d, ci);
    assert(count_after(scan, n.q, si, n.eob) == 0);
    assert(count_after(scan, n.q, si - 1, n.eob) == 1);
    lemma_not_beyond(scan, si);
    assert(s.q[ci] == q0[ci] && s.d[ci] == d0[ci]);
    lemma_cut_sums(e, q0, s, n, si);
    lemma_met(scan, q0, s.q, s.q, si);
    lemma_cut_pays(e, q0, d0, s, n, si);
    lemma_ends_moved(
        e,
        q0,
        d0,
        eob0,
        Standing { q: s.q, d: s.d, eob: s.eob },
        Standing { q: n.q, d: n.d, eob: n.eob },
    );
}

proof fn lemma_cut_sums(e: TrellisEnv, q0: Seq<i32>, s: TrellisState, n: TrellisState, si: int)
    requires
        0 <= si < s.eob - 1,
        n.eob != s.eob,
        s.q[e.scan@[si] as int] != 0,
        weighed_step(e, s, n, si),
        ({
            let ci = e.scan@[si] as int;
            let low = with_sign(e.recon(ci, abs_int(s.q[ci] as int) - 1), s.q[ci] as int);
            low as i32 == low
        }),
    ensures
        summed(e, q0, n, si - 1),
{
    let ci = e.scan@[si] as int;
    let level = abs_int(s.q[ci] as int);
    lemma_bits_like(e, s.q, si, level - 1, n.q[ci] as int, s.q[ci] as int);
    assert(count_after(e.scan@, n.q, si, n.eob) == 0);
    assert(count_after(e.scan@, n.q, si - 1, n.eob) == 1);
    assert(tail_bits(e, q0, n.q, n.eob, si) == end_bits(e, si + 1));
    assert(tail_error(e, n.d, n.eob, si) == 0);
}

proof fn lemma_cut_pays(e: TrellisEnv, q0: Seq<i32>, d0: Seq<i32>, s: TrellisState, n: TrellisState, si: int)
    requires
        e.wf(),
        0 <= si < s.eob - 1,
        n.eob != s.eob,
        s.q[e.scan@[si] as int] != 0,
        weighed_step(e, s, n, si),
        met(e.scan@, q0, s.q, si) == s.q,
        summed(e, q0, s, si),
        summed(e, q0, n, si - 1),
        s.q[e.scan@[si] as int] == q0[e.scan@[si] as int],
        s.d[e.scan@[si] as int] == d0[e.scan@[si] as int],
    ensures
        ending_pays(e, q0, d0, s.q, s.d, s.eob, n.q, n.d, n.eob),
{
    reveal(ending_pays);
}

proof fn lemma_zero_step(e: TrellisEnv, q0: Seq<i32>, d0: Seq<i32>, eob0: int, s: TrellisState, n: TrellisState, si: int)
    requires
        e.wf(),
        scan_distinct(e.scan@),
        e.w() * e.h() <= q0.len(),
        e.w() * e.h() <= d0.len(),
        0 <= si,
        on_course(e, q0, d0, eob0, s, si),
        tame(e, q0, n.q, n.d),
        ledger(e, n, si - 1),
        s.q[e.scan@[si] as int] == 0,
        n == (TrellisState { rate: n.rate, ..s }),
        n.rate == s.rate + level_bits(e, s.q, e.scan@[si] as int, 0, 0),
    ensures
        stepped(e, q0, d0, eob0, s, n, si),
{
    lemma_bits_like(e, s.q, si, 0, 0, s.q[e.scan@[si] as int] as int);
    reveal(end_choice);
    let ci = e.scan@[si] as int;
    assert(n.q =~= s.q.update(ci, n.q[ci]));
    assert(n.d =~= s.d.update(ci, n.d[ci]));
    lemma_stay(e, q0, d0, eob0, s, n, si);
    lemma_zero_error(e, q0, s.q, s.d, ci);
    assert(summed(e, q0, n, si - 1));
}

proof fn lemma_zero_facts(e: TrellisEnv, s: TrellisState, si: int)
    requires
        s.q[e.scan@[si] as int] == 0,
    ensures
        eob_step(e, s, si) == (TrellisState {
            rate: s.rate + level_bits(e, s.q, e.scan@[si] as int, 0, 0),
            ..s
        }),
{
    reveal(level_bits);
}

#[verifier::spinoff_prover]
#[verifier::rlimit(100)]
proof fn lemma_end_step(e: TrellisEnv, q0: Seq<i32>, d0: Seq<i32>, eob0: int, s: TrellisState, si: int)
    requires
        e.wf(),
        scan_distinct(e.scan@),
        e.w() * e.h() <= q0.len(),
        e.w() * e.h() <= d0.len(),
        0 <= si,
        on_course(e, q0, d0, eob0, s, si),
    ensures
        stepped(e, q0, d0, eob0, s, eob_step(e, s, si), si),
{
    let n = eob_step(e, s, si);
    lemma_ledger_eob(e, s, si);
    lemma_tame_eob(e, q0, s, si);
    if s.q[e.scan@[si] as int] == 0 {
        lemma_zero_facts(e, s, si);
        lemma_zero_step(e, q0, d0, eob0, s, n, si);
    } else {
        lemma_cleared_values(s.q, s.nz);
        lemma_cleared_values(s.d, s.nz);
        lemma_weighed_step(e, s, si);
        if n.eob == s.eob {
            lemma_stay_step(e, q0, d0, eob0, s, n, si);
        } else {
            lemma_cut_step(e, q0, d0, eob0, s, n, si);
        }
    }
}

proof fn lemma_choice_same(
    e: TrellisEnv,
    q0: Seq<i32>,
    d0: Seq<i32>,
    qa: Seq<i32>,
    da: Seq<i32>,
    qb: Seq<i32>,
    db: Seq<i32>,
    eob: int,
    si: int,
)
    requires
        e.wf(),
        scan_distinct(e.scan@),
        0 <= si < eob <= e.scan@.len(),
        qa.len() == q0.len(),
        da.len() == d0.len(),
        e.w() * e.h() <= q0.len(),
        e.w() * e.h() <= d0.len(),
        agree(e.scan@, qa, qb, si - 1),
        agree(e.scan@, da, db, si - 1),
        end_choice(e, q0, d0, qa, da, eob, si),
    ensures
        end_choice(e, q0, d0, qb, db, eob, si),
{
    reveal(end_choice);
    lemma_agree_down(e.scan@, qa, qb, si);
    lemma_agree_down(e.scan@, da, db, si);
    lemma_tail_same(e, q0, qa, qb, eob, si);
    lemma_tail_same(e, q0, qa, qb, eob, si - 1);
    lemma_tail_same(e, d0, da, db, eob, si);
    lemma_tail_same(e, d0, da, db, eob, si - 1);
    lemma_not_beyond(e.scan@, si);
    assert(met(e.scan@, q0, qa, si) =~= met(e.scan@, q0, qb, si));
    assert(qa[e.scan@[si] as int] == qb[e.scan@[si] as int]);
}

/// The end phase from `si` on has stopped at `at`.
spec fn walked(
    e: TrellisEnv,
    q0: Seq<i32>,
    d0: Seq<i32>,
    eob0: int,
    s: TrellisState,
    si: int,
    n: TrellisState,
    at: int,
) -> bool {
    &&& on_course(e, q0, d0, eob0, n, at)
    &&& -1 <= at <= si
    &&& at >= 0 ==> n.nz.len() > 4
    &&& n.eob == s.eob || n.eob <= si + 1
    &&& n.eob <= s.eob
    &&& n.eob == s.eob ==> agree(e.scan@, s.q, n.q, si) && agree(e.scan@, s.d, n.d, si)
    &&& forall|k: int| at < k <= si ==> #[trigger] count_after(e.scan@, n.q, k, n.eob) <= 4
    &&& shrunk(e.scan@, s.q, n.q, si, n.eob)
}

proof fn lemma_walked(
    e: TrellisEnv,
    q0: Seq<i32>,
    d0: Seq<i32>,
    eob0: int,
    s: TrellisState,
    n: TrellisState,
    f: TrellisState,
    si: int,
    at: int,
)
    requires
        e.wf(),
        scan_distinct(e.scan@),
        e.w() * e.h() <= q0.len(),
        e.w() * e.h() <= d0.len(),
        0 <= si,
        on_course(e, q0, d0, eob0, s, si),
        s.nz.len() <= 4,
        stepped(e, q0, d0, eob0, s, n, si),
        walked(e, q0, d0, eob0, n, si - 1, f, at),
    ensures
        walked(e, q0, d0, eob0, s, si, f, at),
{
    let scan = e.scan@;
    assert(shrunk(scan, s.q, f.q, si, f.eob)) by {
        assert forall|i: int| si < i < f.eob && f.q[(#[trigger] scan[i]) as int] != 0 implies s.q[scan[i] as int]
            != 0 by {
            assert(n.q[scan[i] as int] != 0);
        }
    }
    lemma_count_less(scan, f.q, s.q, si, f.eob, s.eob);
    if f.eob == s.eob {
        lemma_agree_down(scan, n.q, f.q, si);
        lemma_agree_down(scan, n.d, f.d, si);
    }
}

proof fn lemma_end_walk(e: TrellisEnv, q0: Seq<i32>, d0: Seq<i32>, eob0: int, s: TrellisState, si: int)
    requires
        e.wf(),
        scan_distinct(e.scan@),
        e.w() * e.h() <= q0.len(),
        e.w() * e.h() <= d0.len(),
        -1 <= si,
        on_course(e, q0, d0, eob0, s, si),
    ensures
        walked(e, q0, d0, eob0, s, si, eob_walk(e, s, si).0, eob_walk(e, s, si).1),
    decreases si + 1,
{
    if si >= 0 && s.nz.len() <= 4 {
        let n = eob_step(e, s, si);
        lemma_end_step(e, q0, d0, eob0, s, si);
        lemma_end_walk(e, q0, d0, eob0, n, si - 1);
        let (f, at) = eob_walk(e, n, si - 1);
        lemma_walked(e, q0, d0, eob0, s, n, f, si, at);
    }
}

proof fn lemma_first_course(e: TrellisEnv, q: Seq<i32>, d: Seq<i32>, eob: int)
    requires
        e.wf(),
        e.buffers_wf(q, d),
        scan_distinct(e.scan@),
        mirrored(e, q, d),
        exact_end(e.scan@, q, eob),
        eob >= 1,
    ensures
        on_course(e, q, d, eob, first_step(e, q, d, eob), eob - 2),
        last_choice(e, q, d, first_step(e, q, d, eob).q, eob),
        first_step(e, q, d, eob).eob == eob,
{
    reveal(last_bits);
    reveal(squared_error);
    reveal(last_choice);
    let s0 = first_step(e, q, d, eob);
    let si = eob - 1;
    let ci = e.scan@[si] as int;
    let scan = e.scan@;
    lemma_first(e, q, d, eob);
    lemma_not_beyond(scan, si);
    assert(fresh(scan, q, q, si) && fresh(scan, d, d, si));
    lemma_write(scan, q, q, si, s0.q[ci]);
    lemma_write(scan, d, d, si, s0.d[ci]);
    assert(s0.q =~= q.update(ci, s0.q[ci]));
    assert(s0.d =~= d.update(ci, s0.d[ci]));
    assert(tame(e, q, q, d));
    crate::trellis_laws::lemma_low_fits(e, q, q, d, ci);
    assert(s0.q[ci] != 0);
    lemma_bits_like(e, q, si, abs_int(q[ci] as int) - 1, s0.q[ci] as int, q[ci] as int);
    assert(count_after(scan, s0.q, si, eob) == 0);
    assert(count_after(scan, s0.q, si - 1, eob) == 1);
    assert(tail_bits(e, q, s0.q, eob, si) == end_bits(e, eob));
    assert(tail_error(e, s0.d, eob, si) == 0);
    assert(summed(e, q, s0, eob - 2));
    assert(last_choice(e, q, d, s0.q, eob));
    lemma_ends_start(e, q, d, eob, s0.q, s0.d);
}

/// Everything about an optimized block at once: where its end phase stopped,
/// and what was chosen on either side.
spec fn chosen(e: TrellisEnv, q: Seq<i32>, d: Seq<i32>, eob: int, f: TrellisState, at: int) -> bool {
    let row = e.o.txb_costs.txb_skip_cost[e.o.txb_skip_ctx as int];
    let end = plain_end(e, f.eob);
    &&& -1 <= at
    &&& 0 <= f.eob <= eob
    &&& at >= 0 ==> count_after(e.scan@, f.q, at, f.eob) > 4 && at < f.eob - 1
    &&& forall|k: int| at < k < f.eob ==> #[trigger] count_after(e.scan@, f.q, k, f.eob) <= 4
    &&& f.eob > 0 ==> all_end_choices(e, q, d, f.q, f.d, f.eob, at) && ends_well(e, q, d, eob, f.q, f.d, f.eob)
    &&& f.eob == 0 ==> exists|x: Standing| #[trigger] dropping_pays(e, q, d, eob, x)
    &&& at == -1 && f.eob > 0 && !e.o.sharpness_flag && count_after(e.scan@, f.q, -1, f.eob) <= 4 ==> weighed(
        e,
        tail_bits(e, q, f.q, f.eob, -1) + row[0],
        tail_error(e, f.d, f.eob, -1),
    ) <= weighed(e, row[1] as int, 0)
    &&& forall|k: int| end <= k <= at ==> #[trigger] plain_choice(e, q, d, f.q, k)
    &&& at >= 0 && end == 1 ==> dc_choice(e, q, d, f.q)
    &&& forall|k: int| 1 <= k < end && k <= at ==> f.q[(#[trigger] e.scan@[k]) as int] == q[e.scan@[k] as int]
    &&& at >= 1 && end > 1 ==> f.q[e.scan@[0] as int] == q[e.scan@[0] as int]
}

/// Dropping a whole block pays: an empty one costs less than the block as it
/// stood, whose end was well placed and whose every level was the cheaper one.
pub open spec fn dropping_pays(e: TrellisEnv, q: Seq<i32>, d: Seq<i32>, eob: int, x: Standing) -> bool {
    let row = e.o.txb_costs.txb_skip_cost[e.o.txb_skip_ctx as int];
    &&& !e.o.sharpness_flag
    &&& ends_well(e, q, d, eob, x.q, x.d, x.eob)
    &&& all_end_choices(e, q, d, x.q, x.d, x.eob, -1)
    &&& weighed(e, row[1] as int, 0) < weighed(
        e,
        tail_bits(e, q, x.q, x.eob, -1) + row[0],
        tail_error(e, x.d, x.eob, -1),
    )
}

proof fn lemma_plain_kept(e: TrellisEnv, q0: Seq<i32>, d0: Seq<i32>, a: Seq<i32>, b: Seq<i32>, k: int)
    requires
        e.wf(),
        scan_distinct(e.scan@),
        0 <= k < e.scan@.len(),
        a.len() == q0.len(),
        e.w() * e.h() <= q0.len(),
        agree(e.scan@, a, b, k - 1),
        plain_choice(e, q0, d0, a, k),
    ensures
        plain_choice(e, q0, d0, b, k),
{
    reveal(plain_choice);
    lemma_not_beyond(e.scan@, k);
    lemma_agree_down(e.scan@, a, b, k);
    assert(met(e.scan@, q0, a, k) =~= met(e.scan@, q0, b, k));
    assert(a[e.scan@[k] as int] == b[e.scan@[k] as int]);
}

proof fn lemma_further(scan: Seq<u16>, a: Seq<i32>, b: Seq<i32>, si: int, sj: int)
    requires
        si <= sj,
        agree(scan, a, b, si),
    ensures
        agree(scan, a, b, sj),
{
    assert forall|p: int| 0 <= p < a.len() && beyond(scan, sj, p) implies #[trigger] a[p] == b[p] by {
        let i = choose|i: int| sj < i < scan.len() && (#[trigger] scan[i]) as int == p;
        assert(si < i < scan.len() && scan[i] as int == p);
    }
}

proof fn lemma_chosen_short(e: TrellisEnv, q: Seq<i32>, d: Seq<i32>, eob: int, s: TrellisState, f: TrellisState)
    requires
        e.wf(),
        scan_distinct(e.scan@),
        on_course(e, q, d, eob, s, -1),
        forall|k: int| -1 < k <= eob - 2 ==> #[trigger] count_after(e.scan@, s.q, k, s.eob) <= 4,
        f == if s.nz.len() <= 4 {
            skip_step(e, s)
        } else {
            s
        },
    ensures
        chosen(e, q, d, eob, f, -1),
{
    reveal(weighed);
    lemma_skip(e, q, s);
    if f.eob == 0 {
        assert(f.q == cleared(s.q, s.nz));
        let row = e.o.txb_costs.txb_skip_cost[e.o.txb_skip_ctx as int];
        let x = Standing { q: s.q, d: s.d, eob: s.eob };
        assert(dropping_pays(e, q, d, eob, x));
    } else {
        assert(f == s);
        assert forall|k: int| -1 < k < f.eob implies #[trigger] count_after(e.scan@, f.q, k, f.eob) <= 4 by {
            if k > eob - 2 {
                assert(f.eob <= k + 1);
            }
        }
    }
}

proof fn lemma_chosen_long(
    e: TrellisEnv,
    q: Seq<i32>,
    d: Seq<i32>,
    eob: int,
    s1: TrellisState,
    at: int,
    s3: TrellisState,
    f: TrellisState,
)
    requires
        e.wf(),
        e.buffers_wf(q, d),
        mirrored(e, q, d),
        scan_distinct(e.scan@),
        0 <= at,
        on_course(e, q, d, eob, s1, at),
        s1.nz.len() > 4,
        forall|k: int| at < k <= eob - 2 ==> #[trigger] count_after(e.scan@, s1.q, k, s1.eob) <= 4,
        s3 == simple_walk(e, s1, at, plain_end(e, s1.eob)),
        ({
            let end = plain_end(e, s1.eob);
            let rest = if at >= end {
                end - 1
            } else {
                at
            };
            if rest == 0 {
                f == general_step(e, s3, 0)
            } else {
                f == s3
            }
        }),
    ensures
        chosen(e, q, d, eob, f, at),
{
    let scan = e.scan@;
    let end = plain_end(e, s1.eob);
    let rest = if at >= end {
        end - 1
    } else {
        at
    };
    lemma_plain_walk(e, q, d, s1, at, end);
    if rest == 0 {
        lemma_dc(e, q, d, s3);
        lemma_tame_general(e, q, s3, 0);
        lemma_further(scan, s3.q, f.q, 0, at);
        lemma_further(scan, s3.d, f.d, 0, at);
    }
    assert(agree(scan, s1.q, f.q, at));
    assert(agree(scan, s1.d, f.d, at));
    assert(f.eob == s1.eob);
    lemma_chosen_tail(e, q, d, eob, s1, at, f);
    assert forall|k: int| end <= k <= at implies #[trigger] plain_choice(e, q, d, f.q, k) by {
        assert(plain_choice(e, q, d, s3.q, k));
        if rest == 0 {
            lemma_further(scan, s3.q, f.q, 0, k - 1);
        } else {
            lemma_further(scan, s3.q, s3.q, -1, k - 1);
        }
        lemma_plain_kept(e, q, d, s3.q, f.q, k);
    }
    assert forall|k: int| 0 <= k <= rest implies s3.q[(#[trigger] scan[k]) as int] == q[scan[k] as int] by {
        assert(!beyond(scan, rest, scan[k] as int)) by {
            if beyond(scan, rest, scan[k] as int) {
                let i = choose|i: int| rest < i < scan.len() && (#[trigger] scan[i]) as int == scan[k] as int;
                assert(scan[k] != scan[i]);
            }
        }
    }
    assert forall|k: int| 1 <= k < end && k <= at implies f.q[(#[trigger] scan[k]) as int] == q[scan[k] as int] by {
        if rest == 0 {
            assert(scan[0] != scan[k]);
        }
    }
}

proof fn lemma_chosen_tail(
    e: TrellisEnv,
    q: Seq<i32>,
    d: Seq<i32>,
    eob: int,
    s1: TrellisState,
    at: int,
    f: TrellisState,
)
    requires
        e.wf(),
        e.buffers_wf(q, d),
        scan_distinct(e.scan@),
        0 <= at,
        on_course(e, q, d, eob, s1, at),
        s1.nz.len() > 4,
        forall|k: int| at < k <= eob - 2 ==> #[trigger] count_after(e.scan@, s1.q, k, s1.eob) <= 4,
        agree(e.scan@, s1.q, f.q, at),
        agree(e.scan@, s1.d, f.d, at),
        f.eob == s1.eob,
    ensures
        count_after(e.scan@, f.q, at, f.eob) > 4,
        forall|k: int| at < k < f.eob ==> #[trigger] count_after(e.scan@, f.q, k, f.eob) <= 4,
        all_end_choices(e, q, d, f.q, f.d, f.eob, at),
        ends_well(e, q, d, eob, f.q, f.d, f.eob),
{
    let scan = e.scan@;
    assert forall|k: int| at < k < f.eob - 1 implies #[trigger] end_choice(e, q, d, f.q, f.d, f.eob, k) by {
        lemma_further(scan, s1.q, f.q, at, k - 1);
        lemma_further(scan, s1.d, f.d, at, k - 1);
        assert(end_choice(e, q, d, s1.q, s1.d, s1.eob, k));
        lemma_choice_same(e, q, d, s1.q, s1.d, f.q, f.d, f.eob, k);
    }
    lemma_further(scan, s1.q, f.q, at, f.eob - 2);
    lemma_further(scan, s1.d, f.d, at, f.eob - 2);
    lemma_ends_well_same(e, q, d, eob, s1.q, s1.d, f.q, f.d, f.eob);
    assert forall|i: int| at < i < f.eob implies s1.q[(#[trigger] scan[i]) as int] == f.q[scan[i] as int] by {
        assert(beyond(scan, at, scan[i] as int));
    }
    lemma_count_same(scan, s1.q, f.q, at, f.eob);
    assert forall|k: int| at < k < f.eob implies #[trigger] count_after(scan, f.q, k, f.eob) <= 4 by {
        lemma_count_same(scan, s1.q, f.q, k, f.eob);
        if k <= eob - 2 {
            assert(count_after(scan, s1.q, k, s1.eob) <= 4);
        }
    }
}

proof fn lemma_chosen(e: TrellisEnv, q: Seq<i32>, d: Seq<i32>, eob: int) -> (at: int)
    requires
        e.wf(),
        e.buffers_wf(q, d),
        scan_distinct(e.scan@),
        mirrored(e, q, d),
        exact_end(e.scan@, q, eob),
        eob >= 1,
    ensures
        chosen(e, q, d, eob, optimized(e, q, d, eob), at),
{
    let f = optimized(e, q, d, eob);
    let s0 = first_step(e, q, d, eob);
    lemma_first_course(e, q, d, eob);
    lemma_end_walk(e, q, d, eob, s0, eob - 2);
    let (s1, at) = eob_walk(e, s0, eob - 2);
    if at == -1 {
        lemma_chosen_short(e, q, d, eob, s1, f);
    } else {
        lemma_chosen_long(e, q, d, eob, s1, at, simple_walk(e, s1, at, plain_end(e, s1.eob)), f);
    }
    at
}

proof fn lemma_tail_last(e: TrellisEnv, q: Seq<i32>, d: Seq<i32>, a: Seq<i32>, b: Seq<i32>, eob: int, new_eob: int)
    requires
        e.wf(),
        scan_distinct(e.scan@),
        1 <= eob <= e.scan@.len(),
        e.w() * e.h() <= a.len(),
        last_choice(e, q, d, a, eob),
        new_eob == eob ==> agree(e.scan@, a, b, eob - 2),
    ensures
        new_eob == eob ==> last_choice(e, q, d, b, eob),
{
    reveal(last_choice);
    lemma_not_beyond(e.scan@, eob - 1);
}

/// The share of a block that is optimized reaches from `si` to the end.
pub open spec fn in_share(e: TrellisEnv, eob: int, si: int) -> bool {
    e.o.cut_off_num == 0 || si >= eob - max_int(
        (e.w() * e.h()) / 128,
        (eob * e.o.cut_off_num) / (e.o.cut_off_denum as int),
    )
}

/// A level with five or more nonzero ones after it, other than DC, is the
/// cheaper of two: it is lowered exactly where its reconstruction does not
/// fall short and the cost of its rate and squared error falls strictly.
pub proof fn plain_levels_are_the_cheaper_ones(e: TrellisEnv, q: Seq<i32>, d: Seq<i32>, eob: int, si: int)
    requires
        e.wf(),
        e.buffers_wf(q, d),
        scan_distinct(e.scan@),
        mirrored(e, q, d),
        exact_end(e.scan@, q, eob),
        eob >= 1,
        1 <= si < optimized(e, q, d, eob).eob,
        count_after(e.scan@, optimized(e, q, d, eob).q, si, optimized(e, q, d, eob).eob) >= 5,
        in_share(e, optimized(e, q, d, eob).eob, si),
    ensures
        plain_choice(e, q, d, optimized(e, q, d, eob).q, si),
{
    let at = lemma_chosen(e, q, d, eob);
    let f = optimized(e, q, d, eob);
    if si > at {
        assert(count_after(e.scan@, f.q, si, f.eob) <= 4);
    }
    assert(plain_end(e, f.eob) <= si);
}

/// A level outside the share that is optimized, with five or more nonzero ones
/// after it, is kept.
pub proof fn levels_outside_the_share_are_kept(e: TrellisEnv, q: Seq<i32>, d: Seq<i32>, eob: int, si: int)
    requires
        e.wf(),
        e.buffers_wf(q, d),
        scan_distinct(e.scan@),
        mirrored(e, q, d),
        exact_end(e.scan@, q, eob),
        eob >= 1,
        0 <= si < optimized(e, q, d, eob).eob,
        count_after(
            e.scan@,
            optimized(e, q, d, eob).q,
            max_int(si, 1),
            optimized(e, q, d, eob).eob,
        ) >= 5,
        !in_share(e, optimized(e, q, d, eob).eob, max_int(si, 1)),
    ensures
        optimized(e, q, d, eob).q[e.scan@[si] as int] == q[e.scan@[si] as int],
{
    let at = lemma_chosen(e, q, d, eob);
    let f = optimized(e, q, d, eob);
    let sj = max_int(si, 1);
    if sj > at {
        if sj < f.eob {
            assert(count_after(e.scan@, f.q, sj, f.eob) <= 4);
        }
    }
    assert(plain_end(e, f.eob) > sj);
}

/// DC, with five or more nonzero levels after it, is the cheaper of two: it is
/// lowered exactly where the cost of its rate, with its own sign, and of its
/// squared error falls strictly.
pub proof fn dc_is_the_cheaper_one(e: TrellisEnv, q: Seq<i32>, d: Seq<i32>, eob: int)
    requires
        e.wf(),
        e.buffers_wf(q, d),
        scan_distinct(e.scan@),
        mirrored(e, q, d),
        exact_end(e.scan@, q, eob),
        eob >= 1,
        count_after(e.scan@, optimized(e, q, d, eob).q, 0, optimized(e, q, d, eob).eob) >= 5,
        in_share(e, optimized(e, q, d, eob).eob, 1),
    ensures
        dc_choice(e, q, d, optimized(e, q, d, eob).q),
{
    let at = lemma_chosen(e, q, d, eob);
    let f = optimized(e, q, d, eob);
    if at < 0 {
        if f.eob > 0 {
            assert(count_after(e.scan@, f.q, 0, f.eob) <= 4);
        }
    }
    assert(plain_end(e, f.eob) == 1);
}

/// A level with at most four nonzero ones after it, other than the last, is
/// the cheaper of two, with all that is scanned after it; and ending the block
/// at it would not have cost less, unless sharpness is asked for.
pub proof fn end_levels_are_the_cheaper_ones(e: TrellisEnv, q: Seq<i32>, d: Seq<i32>, eob: int, si: int)
    requires
        e.wf(),
        e.buffers_wf(q, d),
        scan_distinct(e.scan@),
        mirrored(e, q, d),
        exact_end(e.scan@, q, eob),
        eob >= 1,
        0 <= si < optimized(e, q, d, eob).eob - 1,
        count_after(e.scan@, optimized(e, q, d, eob).q, si, optimized(e, q, d, eob).eob) <= 4,
    ensures
        end_choice(
            e,
            q,
            d,
            optimized(e, q, d, eob).q,
            optimized(e, q, d, eob).d,
            optimized(e, q, d, eob).eob,
            si,
        ),
{
    let at = lemma_chosen(e, q, d, eob);
    let f = optimized(e, q, d, eob);
    if si <= at {
        lemma_count_falls(e.scan@, f.q, si, at, f.eob);
    }
}

/// A block that is left nonempty ends where it ended before, with the cheaper
/// level there, or its end has moved because that paid.
pub proof fn ends_move_where_it_pays(e: TrellisEnv, q: Seq<i32>, d: Seq<i32>, eob: int)
    requires
        e.wf(),
        e.buffers_wf(q, d),
        scan_distinct(e.scan@),
        mirrored(e, q, d),
        exact_end(e.scan@, q, eob),
        eob >= 1,
        optimized(e, q, d, eob).eob > 0,
    ensures
        ends_well(
            e,
            q,
            d,
            eob,
            optimized(e, q, d, eob).q,
            optimized(e, q, d, eob).d,
            optimized(e, q, d, eob).eob,
        ),
{
    let _ = lemma_chosen(e, q, d, eob);
}

/// A block that is left with at most four nonzero levels costs no more than an
/// empty one, unless sharpness is asked for: its rate, that of its end and of
/// saying that it is not empty, with what it saves in squared error.
pub proof fn short_blocks_beat_empty_ones(e: TrellisEnv, q: Seq<i32>, d: Seq<i32>, eob: int)
    requires
        e.wf(),
        e.buffers_wf(q, d),
        scan_distinct(e.scan@),
        mirrored(e, q, d),
        exact_end(e.scan@, q, eob),
        eob >= 1,
        !e.o.sharpness_flag,
        optimized(e, q, d, eob).eob > 0,
        count_after(e.scan@, optimized(e, q, d, eob).q, -1, optimized(e, q, d, eob).eob) <= 4,
    ensures
        ({
            let f = optimized(e, q, d, eob);
            let row = e.o.txb_costs.txb_skip_cost[e.o.txb_skip_ctx as int];
            let bits = tail_bits(e, q, f.q, f.eob, -1) + row[0];
            (bits * e.o.rdmult + 256) / 512 + 128 * tail_error(e, f.d, f.eob, -1) <= (row[1] * e.o.rdmult + 256) / 512
        }),
{
    reveal(weighed);
    let at = lemma_chosen(e, q, d, eob);
    let f = optimized(e, q, d, eob);
    if at >= 0 {
        lemma_count_falls(e.scan@, f.q, -1, at, f.eob);
    }
}

/// A block is dropped only where an empty one costs less than the block did,
/// with its end well placed and every level the cheaper one.
pub proof fn blocks_are_dropped_where_it_pays(e: TrellisEnv, q: Seq<i32>, d: Seq<i32>, eob: int) -> (x: Standing)
    requires
        e.wf(),
        e.buffers_wf(q, d),
        scan_distinct(e.scan@),
        mirrored(e, q, d),
        exact_end(e.scan@, q, eob),
        eob >= 1,
        optimized(e, q, d, eob).eob == 0,
    ensures
        dropping_pays(e, q, d, eob, x),
{
    let _ = lemma_chosen(e, q, d, eob);
    choose|x: Standing| #[trigger] dropping_pays(e, q, d, eob, x)
}

/// Where rates do not count, a level of the plain phase is lowered only where
/// that brings it strictly closer to its coefficient.
pub proof fn free_rates_leave_the_closer_level(e: TrellisEnv, q: Seq<i32>, d: Seq<i32>, eob: int, si: int)
    requires
        e.wf(),
        e.buffers_wf(q, d),
        scan_distinct(e.scan@),
        mirrored(e, q, d),
        exact_end(e.scan@, q, eob),
        eob >= 1,
        e.o.rdmult == 0,
        1 <= si < optimized(e, q, d, eob).eob,
        count_after(e.scan@, optimized(e, q, d, eob).q, si, optimized(e, q, d, eob).eob) >= 5,
        in_share(e, optimized(e, q, d, eob).eob, si),
    ensures
        ({
            let f = optimized(e, q, d, eob);
            let ci = e.scan@[si] as int;
            let (t, kept) = (abs_int(e.tcoeff@[ci] as int), abs_int(d[ci] as int));
            let low = e.recon(ci, abs_int(q[ci] as int) - 1);
            f.q[ci] != q[ci] ==> abs_int(t - low) < abs_int(t - kept)
        }),
{
    plain_levels_are_the_cheaper_ones(e, q, d, eob, si);
    reveal(plain_choice);
    reveal(squared_error);
    let f = optimized(e, q, d, eob);
    let ci = e.scan@[si] as int;
    let (t, kept) = (abs_int(e.tcoeff@[ci] as int), abs_int(d[ci] as int));
    let low = e.recon(ci, abs_int(q[ci] as int) - 1);
    if f.q[ci] != q[ci] {
        let p = pow2(e.shift()) as int;
        let (a, b) = (t - low, t - kept);
        if abs_int(a) >= abs_int(b) {
            assert((a * p) * (a * p) >= (b * p) * (b * p)) by (nonlinear_arith)
                requires
                    abs_int(a) >= abs_int(b),
                    p >= 0,
            ;
        }
    }
}

/// A level above fourteen costs, beyond its range part, twice the length of
/// its excess less one raw bits.
pub proof fn excess_is_coded_in_twice_its_length(level: int, n: nat)
    requires
        pow2(n) <= level - 14 < pow2(n + 1),
    ensures
        golomb_rate(level) == 512 * (2 * n + 1),
{
    vstd::arithmetic::power2::lemma_pow2_pos(n);
    crate::quant::lemma_ilog2(level - 14);
    let m = crate::quant::ilog2(level - 14) as nat;
    if m < n {
        if m + 1 < n {
            vstd::arithmetic::power2::lemma_pow2_strictly_increases(m + 1, n);
        }
    }
    if n < m {
        if n + 1 < m {
            vstd::arithmetic::power2::lemma_pow2_strictly_increases(n + 1, m);
        }
    }
}

} // verus!
