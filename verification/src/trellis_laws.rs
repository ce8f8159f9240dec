//! What optimizing a block keeps: the reconstruction mirrors the levels, no
//! level grows, and the end of the block stays exact.

use vstd::arithmetic::mul::lemma_mul_nonnegative;
use vstd::prelude::*;

use crate::arith::abs_int;
use crate::quant::{entry_of, eob_of, inverse_weight_at, matrix_view, with_sign};
use crate::trellis::{
    cleared, eob_rate, eob_step, eob_walk, first_step, general_step, lemma_recon_monotone, lemma_recon_zero,
    optimized, plain_end, simple_step, simple_walk, skip_step, TrellisEnv, TrellisState,
};

verus! {

/// Every reconstruction is the one a decoder builds from its level.
pub open spec fn mirrored(e: TrellisEnv, q: Seq<i32>, d: Seq<i32>) -> bool {
    forall|ci: int|
        #![trigger q[ci]]
        #![trigger d[ci]]
        0 <= ci < e.w() * e.h() ==> d[ci] == with_sign(e.recon(ci, abs_int(q[ci] as int)), q[ci] as int)
}

/// No level of `q` is larger than in `q0`, and none has changed its sign.
pub open spec fn only_lowered(e: TrellisEnv, q0: Seq<i32>, q: Seq<i32>) -> bool {
    forall|ci: int|
        #![trigger q[ci]]
        0 <= ci < e.w() * e.h() ==> abs_int(q[ci] as int) <= abs_int(q0[ci] as int) && (q[ci] > 0 ==> q0[ci]
            > 0) && (q[ci] < 0 ==> q0[ci] < 0)
}

/// The buffers are in range, the reconstruction mirrors the levels, and no
/// level has grown.
pub open spec fn tame(e: TrellisEnv, q0: Seq<i32>, q: Seq<i32>, d: Seq<i32>) -> bool {
    &&& e.buffers_wf(q, d)
    &&& mirrored(e, q, d)
    &&& only_lowered(e, q0, q)
}

proof fn lemma_tame_write(e: TrellisEnv, q0: Seq<i32>, q: Seq<i32>, d: Seq<i32>, ci: int, low: int)
    requires
        e.wf(),
        tame(e, q0, q, d),
        0 <= ci < e.w() * e.h(),
        0 <= low < abs_int(q[ci] as int) || (low == 0 == q[ci]),
        low == 0 || low == abs_int(q[ci] as int) - 1,
    ensures
        tame(
            e,
            q0,
            q.update(ci, with_sign(low, q[ci] as int) as i32),
            d.update(ci, with_sign(e.recon(ci, low), q[ci] as int) as i32),
        ),
        e.recon(ci, 0) == 0,
        with_sign(low, q[ci] as int) as i32 == with_sign(low, q[ci] as int),
        with_sign(e.recon(ci, low), q[ci] as int) as i32 == with_sign(e.recon(ci, low), q[ci] as int),
{
    let step = e.step(ci);
    lemma_recon_zero(step, e.shift());
    assert(0 <= step) by {
        lemma_step_nonnegative(e, ci);
    }
    assert(e.recon(ci, abs_int(q[ci] as int)) <= 0x8_0000);
    if q[ci] != 0 {
        lemma_recon_monotone(abs_int(q[ci] as int) - 1, step, e.shift());
    }
}

/// The reconstruction of a lowered level fits where that of the level does.
pub proof fn lemma_low_fits(e: TrellisEnv, q0: Seq<i32>, q: Seq<i32>, d: Seq<i32>, ci: int)
    requires
        e.wf(),
        tame(e, q0, q, d),
        0 <= ci < e.w() * e.h(),
        q[ci] != 0,
    ensures
        ({
            let low = with_sign(e.recon(ci, abs_int(q[ci] as int) - 1), q[ci] as int);
            low as i32 == low
        }),
{
    lemma_tame_write(e, q0, q, d, ci, abs_int(q[ci] as int) - 1);
}

proof fn lemma_step_nonnegative(e: TrellisEnv, ci: int)
    requires
        e.wf(),
        0 <= ci < e.w() * e.h(),
    ensures
        0 <= e.step(ci),
{
    let iw = inverse_weight_at(matrix_view(e.o.iwt), ci);
    let d = e.dequant@[entry_of(ci)] as int;
    lemma_mul_nonnegative(d, iw);
}

proof fn lemma_tame_cleared(e: TrellisEnv, q0: Seq<i32>, q: Seq<i32>, d: Seq<i32>, nz: Seq<int>)
    requires
        e.wf(),
        tame(e, q0, q, d),
        forall|j: int| 0 <= j < nz.len() ==> 0 <= #[trigger] nz[j] < e.w() * e.h(),
    ensures
        tame(e, q0, cleared(q, nz), cleared(d, nz)),
    decreases nz.len(),
{
    if nz.len() > 0 {
        lemma_tame_cleared(e, q0, q, d, nz.drop_last());
        let q1 = cleared(q, nz.drop_last());
        let d1 = cleared(d, nz.drop_last());
        let ci = nz.last();
        lemma_tame_write(e, q0, q1, d1, ci, 0);
        assert(with_sign(0, q1[ci] as int) == 0);
    }
}

pub proof fn lemma_tame_general(e: TrellisEnv, q0: Seq<i32>, s: TrellisState, si: int)
    requires
        e.wf(),
        tame(e, q0, s.q, s.d),
        0 <= si < e.scan@.len(),
    ensures
        tame(e, q0, general_step(e, s, si).q, general_step(e, s, si).d),
{
    let ci = e.scan@[si] as int;
    if s.q[ci] != 0 {
        lemma_tame_write(e, q0, s.q, s.d, ci, abs_int(s.q[ci] as int) - 1);
    }
}

pub proof fn lemma_tame_simple(e: TrellisEnv, q0: Seq<i32>, s: TrellisState, si: int)
    requires
        e.wf(),
        tame(e, q0, s.q, s.d),
        0 <= si < e.scan@.len(),
    ensures
        tame(e, q0, simple_step(e, s, si).q, simple_step(e, s, si).d),
{
    let ci = e.scan@[si] as int;
    if s.q[ci] != 0 {
        lemma_tame_write(e, q0, s.q, s.d, ci, abs_int(s.q[ci] as int) - 1);
    }
}

/// `p` is scanned strictly between `si` and `eob`.
pub open spec fn listed(scan: Seq<u16>, si: int, eob: int, p: int) -> bool {
    exists|i: int| si < i < eob && (#[trigger] scan[i]) as int == p
}

/// Nothing lies beyond the end of the block, and a nonempty block ends at a
/// nonzero level.
pub open spec fn exact_end(scan: Seq<u16>, q: Seq<i32>, eob: int) -> bool {
    &&& 0 <= eob <= scan.len()
    &&& forall|i: int| eob <= i < scan.len() ==> q[(#[trigger] scan[i]) as int] == 0
    &&& eob > 0 ==> q[scan[eob - 1] as int] != 0
}

/// The end-of-block bookkeeping: what is listed in `nz` lies in the block,
/// and covers every nonzero level between `si` and the end of the block;
/// beyond the end of the block everything is zero.
pub open spec fn ledger(e: TrellisEnv, s: TrellisState, si: int) -> bool {
    &&& -1 <= si < s.eob - 1
    &&& forall|j: int| 0 <= j < s.nz.len() ==> listed(e.scan@, si, s.eob, #[trigger] s.nz[j])
    &&& forall|j: int| 0 <= j < s.nz.len() ==> 0 <= #[trigger] s.nz[j] < e.w() * e.h()
    &&& forall|i: int|
        si < i < s.eob && s.q[(#[trigger] e.scan@[i]) as int] != 0 ==> s.nz.contains(e.scan@[i] as int)
    &&& exact_end(e.scan@, s.q, s.eob)
}

/// The scan names no position twice.
pub open spec fn scan_distinct(scan: Seq<u16>) -> bool {
    forall|i: int, j: int| 0 <= i < j < scan.len() ==> #[trigger] scan[i] != #[trigger] scan[j]
}

pub proof fn lemma_cleared_values(q: Seq<i32>, nz: Seq<int>)
    requires
        forall|j: int| 0 <= j < nz.len() ==> 0 <= #[trigger] nz[j] < q.len(),
    ensures
        cleared(q, nz).len() == q.len(),
        forall|p: int|
            0 <= p < q.len() ==> (#[trigger] cleared(q, nz)[p]) == if nz.contains(p) {
                0
            } else {
                q[p]
            },
    decreases nz.len(),
{
    if nz.len() > 0 {
        lemma_cleared_values(q, nz.drop_last());
        assert forall|p: int| 0 <= p < q.len() implies (#[trigger] cleared(q, nz)[p]) == if nz.contains(p) {
            0
        } else {
            q[p]
        } by {
            if nz.contains(p) {
                let j = choose|j: int| 0 <= j < nz.len() && nz[j] == p;
                if j < nz.len() - 1 {
                    assert(nz.drop_last()[j] == p);
                    assert(nz.drop_last().contains(p));
                } else {
                    assert(p == nz.last());
                }
            } else {
                assert(nz.last() == nz[nz.len() - 1]);
                assert(p != nz.last());
                if nz.drop_last().contains(p) {
                    let j = choose|j: int| 0 <= j < nz.drop_last().len() && nz.drop_last()[j] == p;
                    assert(nz[j] == p);
                }
            }
        }
    }
}


pub proof fn lemma_tame_eob(e: TrellisEnv, q0: Seq<i32>, s: TrellisState, si: int)
    requires
        e.wf(),
        tame(e, q0, s.q, s.d),
        0 <= si < e.scan@.len(),
        forall|j: int| 0 <= j < s.nz.len() ==> 0 <= #[trigger] s.nz[j] < e.w() * e.h(),
        !s.nz.contains(e.scan@[si] as int),
    ensures
        tame(e, q0, eob_step(e, s, si).q, eob_step(e, s, si).d),
{
    let ci = e.scan@[si] as int;
    if s.q[ci] != 0 {
        let low = abs_int(s.q[ci] as int) - 1;
        lemma_tame_write(e, q0, s.q, s.d, ci, low);
        lemma_tame_cleared(e, q0, s.q, s.d, s.nz);
        lemma_cleared_values(s.q, s.nz);
        let q1 = cleared(s.q, s.nz);
        assert(q1[ci] == s.q[ci]);
        lemma_tame_write(e, q0, q1, cleared(s.d, s.nz), ci, low);
    }
}

#[verifier::spinoff_prover]
#[verifier::rlimit(60)]
pub proof fn lemma_ledger_eob(e: TrellisEnv, s: TrellisState, si: int)
    requires
        e.wf(),
        e.buffers_wf(s.q, s.d),
        scan_distinct(e.scan@),
        0 <= si,
        ledger(e, s, si),
    ensures
        !s.nz.contains(e.scan@[si] as int),
        ledger(e, eob_step(e, s, si), si - 1),
        eob_step(e, s, si).eob <= s.eob,
{
    let ci = e.scan@[si] as int;
    let n = eob_step(e, s, si);
    assert(!s.nz.contains(ci)) by {
        if s.nz.contains(ci) {
            let j = choose|j: int| 0 <= j < s.nz.len() && s.nz[j] == ci;
            assert(listed(e.scan@, si, s.eob, s.nz[j]));
            let i = choose|i: int| si < i < s.eob && (#[trigger] e.scan@[i]) as int == ci;
            assert(e.scan@[si] != e.scan@[i]);
        }
    }
    lemma_cleared_values(s.q, s.nz);
    assert forall|j: int| 0 <= j < n.nz.len() implies listed(e.scan@, si - 1, n.eob, #[trigger] n.nz[j]) by {
        if j < s.nz.len() && n.nz[j] == s.nz[j] && n.eob == s.eob {
            assert(listed(e.scan@, si, s.eob, s.nz[j]));
            let i = choose|i: int| si < i < s.eob && (#[trigger] e.scan@[i]) as int == s.nz[j];
            assert(si - 1 < i < n.eob && e.scan@[i] as int == n.nz[j]);
        } else {
            assert(n.nz[j] == ci);
            assert(e.scan@[si] as int == ci);
        }
    }
    assert forall|i: int| si < i < e.scan@.len() implies (#[trigger] e.scan@[i]) as int != ci by {
        assert(e.scan@[si] != e.scan@[i]);
    }
    if n.q[ci] != 0 && s.q[ci] != 0 {
        assert(n.nz.last() == ci);
        assert(n.nz.contains(ci));
    }
    assert forall|i: int| si - 1 < i < n.eob && n.q[(#[trigger] e.scan@[i]) as int] != 0 implies n.nz.contains(
        e.scan@[i] as int,
    ) by {
        if i > si {
            let p = e.scan@[i] as int;
            assert(s.nz.contains(p));
            let j = choose|j: int| 0 <= j < s.nz.len() && s.nz[j] == p;
            assert(n.nz[j] == p);
        }
    }
}

pub proof fn lemma_eob_walk(e: TrellisEnv, q0: Seq<i32>, s: TrellisState, si: int)
    requires
        e.wf(),
        scan_distinct(e.scan@),
        tame(e, q0, s.q, s.d),
        -1 <= si,
        ledger(e, s, si),
    ensures
        ({
            let (n, at) = eob_walk(e, s, si);
            &&& tame(e, q0, n.q, n.d)
            &&& ledger(e, n, at)
            &&& n.eob <= s.eob
            &&& -1 <= at <= si
        }),
    decreases si + 1,
{
    if si >= 0 && s.nz.len() <= 4 {
        lemma_ledger_eob(e, s, si);
        lemma_tame_eob(e, q0, s, si);
        lemma_eob_walk(e, q0, eob_step(e, s, si), si - 1);
    }
}

proof fn lemma_end_kept(e: TrellisEnv, q: Seq<i32>, q2: Seq<i32>, eob: int, si: int)
    requires
        e.wf(),
        scan_distinct(e.scan@),
        exact_end(e.scan@, q, eob),
        0 <= si < eob - 1,
        q2.len() == q.len(),
        e.w() * e.h() <= q.len(),
        forall|p: int| 0 <= p < q.len() && p != e.scan@[si] as int ==> #[trigger] q2[p] == q[p],
    ensures
        exact_end(e.scan@, q2, eob),
{
    assert forall|i: int| eob <= i < e.scan@.len() implies q2[(#[trigger] e.scan@[i]) as int] == 0 by {
        assert(e.scan@[si] != e.scan@[i]);
    }
    assert(e.scan@[si] != e.scan@[eob - 1]);
}

pub proof fn lemma_simple_walk(e: TrellisEnv, q0: Seq<i32>, s: TrellisState, si: int, si_end: int)
    requires
        e.wf(),
        scan_distinct(e.scan@),
        tame(e, q0, s.q, s.d),
        exact_end(e.scan@, s.q, s.eob),
        1 <= si_end,
        si < si_end || si < s.eob - 1,
    ensures
        tame(e, q0, simple_walk(e, s, si, si_end).q, simple_walk(e, s, si, si_end).d),
        exact_end(e.scan@, simple_walk(e, s, si, si_end).q, s.eob),
        simple_walk(e, s, si, si_end).eob == s.eob,
    decreases si - si_end + 1,
{
    if si >= si_end {
        let n = simple_step(e, s, si);
        lemma_tame_simple(e, q0, s, si);
        lemma_end_kept(e, s.q, n.q, s.eob, si);
        lemma_simple_walk(e, q0, n, si - 1, si_end);
    }
}

pub proof fn lemma_first(e: TrellisEnv, q: Seq<i32>, d: Seq<i32>, eob: int)
    requires
        e.wf(),
        e.buffers_wf(q, d),
        scan_distinct(e.scan@),
        mirrored(e, q, d),
        exact_end(e.scan@, q, eob),
        eob >= 1,
    ensures
        tame(e, q, first_step(e, q, d, eob).q, first_step(e, q, d, eob).d),
        ledger(e, first_step(e, q, d, eob), eob - 2),
        first_step(e, q, d, eob).eob == eob,
{
    let s0 = first_step(e, q, d, eob);
    let ci = e.scan@[eob - 1] as int;
    let start = TrellisState {
        q,
        d,
        rate: eob_rate(eob, *e.o.eob_costs, *e.o.txb_costs, e.o.tx_class as int),
        dist: 0,
        eob,
        nz: seq![ci],
    };
    assert(tame(e, q, q, d));
    lemma_tame_general(e, q, start, eob - 1);
    lemma_tame_write(e, q, q, d, ci, abs_int(q[ci] as int) - 1);
    assert(s0.nz[0] == ci);
    assert(s0.nz.contains(ci));
    assert(e.scan@[eob - 1] as int == ci);
    assert(listed(e.scan@, eob - 2, eob, ci));
    assert forall|i: int| eob <= i < e.scan@.len() implies s0.q[(#[trigger] e.scan@[i]) as int] == 0 by {
        assert(e.scan@[eob - 1] != e.scan@[i]);
    }
}

pub proof fn lemma_skip(e: TrellisEnv, q0: Seq<i32>, s: TrellisState)
    requires
        e.wf(),
        tame(e, q0, s.q, s.d),
        ledger(e, s, -1),
    ensures
        tame(e, q0, skip_step(e, s).q, skip_step(e, s).d),
        exact_end(e.scan@, skip_step(e, s).q, skip_step(e, s).eob),
        skip_step(e, s).eob <= s.eob,
{
    lemma_tame_cleared(e, q0, s.q, s.d, s.nz);
    lemma_cleared_values(s.q, s.nz);
}

/// Optimizing a block whose reconstruction mirrors its levels gives a block
/// whose reconstruction mirrors its levels. No level grows or changes its
/// sign, the end of the block never moves back, and it stays exact: nothing
/// lies beyond it, and a nonempty block ends at a nonzero level.
pub proof fn optimize_keeps_block_exact(e: TrellisEnv, q: Seq<i32>, d: Seq<i32>, eob: int)
    requires
        e.wf(),
        e.buffers_wf(q, d),
        scan_distinct(e.scan@),
        mirrored(e, q, d),
        exact_end(e.scan@, q, eob),
        eob >= 1,
    ensures
        mirrored(e, optimized(e, q, d, eob).q, optimized(e, q, d, eob).d),
        only_lowered(e, q, optimized(e, q, d, eob).q),
        exact_end(e.scan@, optimized(e, q, d, eob).q, optimized(e, q, d, eob).eob),
        optimized(e, q, d, eob).eob <= eob,
{
    let s0 = first_step(e, q, d, eob);
    lemma_first(e, q, d, eob);
    lemma_eob_walk(e, q, s0, eob - 2);
    let (s1, si) = eob_walk(e, s0, eob - 2);
    let s2 = if si == -1 && s1.nz.len() <= 4 {
        skip_step(e, s1)
    } else {
        s1
    };
    if si == -1 {
        lemma_skip(e, q, s1);
    }
    let end = plain_end(e, s2.eob);
    lemma_simple_walk(e, q, s2, si, end);
    let s3 = simple_walk(e, s2, si, end);
    let rest = if si >= end {
        end - 1
    } else {
        si
    };
    if rest == 0 {
        lemma_tame_general(e, q, s3, 0);
        lemma_end_kept(e, s3.q, general_step(e, s3, 0).q, s3.eob, 0);
    }
}

/// A level is as it was, one lower, or zero.
pub open spec fn lowered_once(v0: i32, v: i32) -> bool {
    v == v0 || v == 0 || v == with_sign(abs_int(v0 as int) - 1, v0 as int)
}

/// Every level is as it was, one lower, or zero.
pub open spec fn all_lowered_once(e: TrellisEnv, q0: Seq<i32>, q: Seq<i32>) -> bool {
    forall|ci: int| 0 <= ci < e.w() * e.h() ==> lowered_once(q0[ci], #[trigger] q[ci])
}

/// Nothing has changed up to scan position `si`.
spec fn untouched(scan: Seq<u16>, q0: Seq<i32>, q: Seq<i32>, si: int) -> bool {
    forall|i: int| 0 <= i <= si && i < scan.len() ==> q[(#[trigger] scan[i]) as int] == q0[scan[i] as int]
}

spec fn once(e: TrellisEnv, q0: Seq<i32>, q: Seq<i32>, si: int) -> bool {
    all_lowered_once(e, q0, q) && untouched(e.scan@, q0, q, si)
}

proof fn lemma_once_write(e: TrellisEnv, q0: Seq<i32>, q: Seq<i32>, si: int, v: i32)
    requires
        e.wf(),
        scan_distinct(e.scan@),
        0 <= si < e.scan@.len(),
        e.w() * e.h() <= q.len(),
        all_lowered_once(e, q0, q),
        untouched(e.scan@, q0, q, si - 1),
        lowered_once(q0[e.scan@[si] as int], v),
    ensures
        once(e, q0, q.update(e.scan@[si] as int, v), si - 1),
{
    assert forall|i: int| 0 <= i <= si - 1 implies q.update(e.scan@[si] as int, v)[(#[trigger] e.scan@[i]) as int]
        == q0[e.scan@[i] as int] by {
        assert(e.scan@[i] != e.scan@[si]);
    }
}

proof fn lemma_once_cleared(e: TrellisEnv, q0: Seq<i32>, s: TrellisState, si: int)
    requires
        e.wf(),
        e.buffers_wf(s.q, s.d),
        scan_distinct(e.scan@),
        -1 <= si,
        ledger(e, s, si),
        once(e, q0, s.q, si),
    ensures
        once(e, q0, cleared(s.q, s.nz), si),
        cleared(s.q, s.nz).len() == s.q.len(),
        0 <= si ==> cleared(s.q, s.nz)[e.scan@[si] as int] == s.q[e.scan@[si] as int],
{
    lemma_cleared_values(s.q, s.nz);
    let q1 = cleared(s.q, s.nz);
    assert forall|i: int| 0 <= i <= si implies q1[(#[trigger] e.scan@[i]) as int] == q0[e.scan@[i] as int] by {
        let p = e.scan@[i] as int;
        if s.nz.contains(p) {
            let j = choose|j: int| 0 <= j < s.nz.len() && s.nz[j] == p;
            assert(listed(e.scan@, si, s.eob, s.nz[j]));
            let k = choose|k: int| si < k < s.eob && (#[trigger] e.scan@[k]) as int == p;
            assert(e.scan@[i] != e.scan@[k]);
        }
    }
    if 0 <= si {
        assert(q1[e.scan@[si] as int] == q0[e.scan@[si] as int]);
    }
}

proof fn lemma_once_eob(e: TrellisEnv, q0: Seq<i32>, s: TrellisState, si: int)
    requires
        e.wf(),
        e.buffers_wf(s.q, s.d),
        scan_distinct(e.scan@),
        0 <= si,
        ledger(e, s, si),
        once(e, q0, s.q, si),
    ensures
        once(e, q0, eob_step(e, s, si).q, si - 1),
{
    let ci = e.scan@[si] as int;
    let v = with_sign(abs_int(s.q[ci] as int) - 1, s.q[ci] as int) as i32;
    lemma_once_cleared(e, q0, s, si);
    assert(s.q[ci] == q0[ci]);
    let q1 = cleared(s.q, s.nz);
    assert(untouched(e.scan@, q0, s.q, si - 1));
    assert(untouched(e.scan@, q0, q1, si - 1));
    if s.q[ci] != 0 {
        lemma_once_write(e, q0, s.q, si, v);
        lemma_once_write(e, q0, q1, si, v);
    }
}

proof fn lemma_once_eob_walk(e: TrellisEnv, q0: Seq<i32>, s: TrellisState, si: int)
    requires
        e.wf(),
        scan_distinct(e.scan@),
        tame(e, q0, s.q, s.d),
        -1 <= si,
        ledger(e, s, si),
        once(e, q0, s.q, si),
    ensures
        once(e, q0, eob_walk(e, s, si).0.q, eob_walk(e, s, si).1),
    decreases si + 1,
{
    if si >= 0 && s.nz.len() <= 4 {
        lemma_ledger_eob(e, s, si);
        lemma_tame_eob(e, q0, s, si);
        lemma_once_eob(e, q0, s, si);
        lemma_once_eob_walk(e, q0, eob_step(e, s, si), si - 1);
    }
}

proof fn lemma_once_simple(e: TrellisEnv, q0: Seq<i32>, s: TrellisState, si: int, si_end: int)
    requires
        e.wf(),
        scan_distinct(e.scan@),
        tame(e, q0, s.q, s.d),
        1 <= si_end,
        si < e.scan@.len(),
        once(e, q0, s.q, si),
    ensures
        once(
            e,
            q0,
            simple_walk(e, s, si, si_end).q,
            if si >= si_end {
                si_end - 1
            } else {
                si
            },
        ),
        simple_walk(e, s, si, si_end).eob == s.eob,
    decreases si - si_end + 1,
{
    if si >= si_end {
        let ci = e.scan@[si] as int;
        let v = with_sign(abs_int(s.q[ci] as int) - 1, s.q[ci] as int) as i32;
        assert(s.q[ci] == q0[ci]);
        assert(untouched(e.scan@, q0, s.q, si - 1));
        if s.q[ci] != 0 {
            lemma_once_write(e, q0, s.q, si, v);
        }
        lemma_tame_simple(e, q0, s, si);
        lemma_once_simple(e, q0, simple_step(e, s, si), si - 1, si_end);
    }
}

/// Optimizing a block keeps each of its levels, lowers it by one, or clears
/// it.
pub proof fn optimize_lowers_levels_once(e: TrellisEnv, q: Seq<i32>, d: Seq<i32>, eob: int)
    requires
        e.wf(),
        e.buffers_wf(q, d),
        scan_distinct(e.scan@),
        mirrored(e, q, d),
        exact_end(e.scan@, q, eob),
        eob >= 1,
    ensures
        all_lowered_once(e, q, optimized(e, q, d, eob).q),
{
    let s0 = first_step(e, q, d, eob);
    let last = e.scan@[eob - 1] as int;
    lemma_first(e, q, d, eob);
    lemma_once_write(e, q, q, eob - 1, with_sign(abs_int(q[last] as int) - 1, q[last] as int) as i32);
    assert(once(e, q, s0.q, eob - 2));
    lemma_once_eob_walk(e, q, s0, eob - 2);
    lemma_eob_walk(e, q, s0, eob - 2);
    let (s1, si) = eob_walk(e, s0, eob - 2);
    let s2 = if si == -1 && s1.nz.len() <= 4 {
        skip_step(e, s1)
    } else {
        s1
    };
    if si == -1 {
        lemma_once_cleared(e, q, s1, si);
        lemma_skip(e, q, s1);
    }
    let end = plain_end(e, s2.eob);
    lemma_once_simple(e, q, s2, si, end);
    let s3 = simple_walk(e, s2, si, end);
    let rest = if si >= end {
        end - 1
    } else {
        si
    };
    if rest == 0 {
        let ci = e.scan@[0] as int;
        assert(s3.q[ci] == q[ci]);
        assert(untouched(e.scan@, q, s3.q, -1));
        lemma_simple_walk(e, q, s2, si, end);
        if s3.q[ci] != 0 {
            lemma_once_write(e, q, s3.q, 0, with_sign(abs_int(q[ci] as int) - 1, q[ci] as int) as i32);
        }
    }
}

proof fn lemma_sharp_walk(e: TrellisEnv, s: TrellisState, si: int)
    requires
        e.o.sharpness_flag,
    ensures
        eob_walk(e, s, si).0.eob == s.eob,
    decreases si + 1,
{
    if si >= 0 && s.nz.len() <= 4 {
        lemma_sharp_walk(e, eob_step(e, s, si), si - 1);
    }
}

proof fn lemma_plain_walk_end(e: TrellisEnv, s: TrellisState, si: int, si_end: int)
    ensures
        simple_walk(e, s, si, si_end).eob == s.eob,
    decreases si - si_end + 1,
{
    if si >= si_end {
        lemma_plain_walk_end(e, simple_step(e, s, si), si - 1, si_end);
    }
}

/// Where sharpness is asked for, optimizing leaves the end of a block where
/// it is.
pub proof fn sharp_blocks_keep_their_end(e: TrellisEnv, q: Seq<i32>, d: Seq<i32>, eob: int)
    requires
        e.o.sharpness_flag,
    ensures
        optimized(e, q, d, eob).eob == eob,
{
    let s0 = first_step(e, q, d, eob);
    lemma_sharp_walk(e, s0, eob - 2);
    let (s1, si) = eob_walk(e, s0, eob - 2);
    lemma_plain_walk_end(e, s1, si, plain_end(e, s1.eob));
}

/// The end that optimizing a block reports is the one its levels have.
pub proof fn optimized_end_is_eob(e: TrellisEnv, q: Seq<i32>, d: Seq<i32>, eob: int)
    requires
        e.wf(),
        e.buffers_wf(q, d),
        scan_distinct(e.scan@),
        mirrored(e, q, d),
        exact_end(e.scan@, q, eob),
        eob >= 1,
    ensures
        optimized(e, q, d, eob).eob == eob_of(e.scan@, optimized(e, q, d, eob).q),
{
    optimize_keeps_block_exact(e, q, d, eob);
    exact_end_is_eob(e.scan@, optimized(e, q, d, eob).q, optimized(e, q, d, eob).eob);
}

/// An exact end of block is the one the quantizers report.
pub proof fn exact_end_is_eob(scan: Seq<u16>, q: Seq<i32>, eob: int)
    requires
        exact_end(scan, q, eob),
    ensures
        eob == eob_of(scan, q),
    decreases scan.len(),
{
    if scan.len() > 0 && eob < scan.len() {
        assert(q[scan[scan.len() - 1] as int] == 0);
        let shorter = scan.drop_last();
        assert forall|i: int| eob <= i < shorter.len() implies q[(#[trigger] shorter[i]) as int] == 0 by {
            assert(shorter[i] == scan[i]);
        }
        exact_end_is_eob(shorter, q, eob);
    }
}

/// The end of block the quantizers report is exact.
pub proof fn eob_is_exact_end(scan: Seq<u16>, q: Seq<i32>)
    ensures
        exact_end(scan, q, eob_of(scan, q)),
    decreases scan.len(),
{
    if scan.len() > 0 && q[scan.last() as int] == 0 {
        let shorter = scan.drop_last();
        eob_is_exact_end(shorter, q);
        let eob = eob_of(shorter, q);
        assert forall|i: int| eob <= i < scan.len() implies q[(#[trigger] scan[i]) as int] == 0 by {
            if i < shorter.len() {
                assert(shorter[i] == scan[i]);
            }
        }
        if eob > 0 {
            assert(shorter[eob - 1] == scan[eob - 1]);
        }
    }
}

} // verus!
