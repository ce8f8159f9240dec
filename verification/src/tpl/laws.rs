//! What the look-ahead search keeps: an intra slice has no vectors, a perfect
//! prediction leaves nothing, and a block changes no samples but its own.

use vstd::arithmetic::mul::lemma_mul_by_zero_is_zero;
use vstd::arithmetic::power2::{lemma2_to64, pow2};
use vstd::prelude::*;

use crate::arith::{abs_int, lemma_raster_index, lemma_total_bounds};
use crate::quant::{above_threshold, entry_of, eob_of, level_of, row_wf, table_wf, weighted_step, Kernel, QuantTable};
use crate::tpl::context::{candidates, ctx_fits, level_at, referred, scan_fits, tx_at, TplMeResults, TplSbCtx};
use crate::tpl::dispenser::{at, covered, is_choice, offer_costs, InterOffer, RecSource, SourceChoice, TplBlock};
use crate::tpl::kernels::{InterpRequest, IntraRequest, InverseRequest, RefineRequest, TplKernels, TxRequest};
use crate::tpl::samples::{
    block_samples, block_side, is_measure, kept_count, lemma_kept_count, lemma_kept_index, row_step, PlaneShape,
    TplMeasure,
};
use crate::tpl::search::error_at;
use crate::tpl::NEWMV;
use crate::types::{Mv, SliceType};

verus! {

/// The forward transform of nothing is nothing.
pub open spec fn keeps_zeros<F: Fn(TxRequest) -> Vec<i32>>(forward: F) -> bool {
    forall|q: TxRequest, v: Vec<i32>| #[trigger]
        call_ensures(forward, (q,), v) && (forall|i: int| 0 <= i < q.residual@.len() ==> #[trigger] q.residual@[i] == 0)
            ==> v@.len() == q.residual@.len() && forall|i: int| 0 <= i < v@.len() ==> #[trigger] v@[i] == 0
}

/// The samples of a block of the source.
pub open spec fn source_samples(c: TplSbCtx, b: TplBlock) -> Seq<u8> {
    block_samples(c.input.y@, c.input.shape().start(b), c.input.y_stride as int, b.size as int)
}

proof fn lemma_level_of_zero(t: QuantTable, rc: int)
    requires
        table_wf(t),
    ensures
        level_of((Kernel { dead_zone: false, saturate: true }), t, 0, None, rc, 0) == 0,
{
    let k = Kernel { dead_zone: false, saturate: true };
    assert(row_wf(t, entry_of(rc)));
    lemma_mul_by_zero_is_zero(pow2(1) as int);
    assert(t.dequant[entry_of(rc)] >= 1);
    assert(abs_int(0) == 0);
    assert(!above_threshold(k, t, 0, None, rc, 0));
}

proof fn lemma_eob_of_zeros(scan: Seq<u16>, q: Seq<i32>)
    requires
        forall|i: int| 0 <= i < scan.len() ==> (#[trigger] scan[i]) < q.len(),
        forall|i: int| 0 <= i < q.len() ==> #[trigger] q[i] == 0,
    ensures
        eob_of(scan, q) == 0,
    decreases scan.len(),
{
    if scan.len() > 0 {
        let shorter = scan.drop_last();
        assert(scan[scan.len() - 1] < q.len());
        assert forall|i: int| 0 <= i < shorter.len() implies (#[trigger] shorter[i]) < q.len() by {
            assert(shorter[i] == scan[i]);
        }
        lemma_eob_of_zeros(shorter, q);
    }
}

impl<
    P: Fn(IntraRequest) -> Vec<u8>,
    F: Fn(TxRequest) -> Vec<i32>,
    V: Fn(InverseRequest) -> Vec<i32>,
    M: Fn(InterpRequest) -> Vec<u8>,
    S: Fn(RefineRequest) -> Mv,
> TplKernels<P, F, V, M, S> {
    /// A prediction that is the block itself leaves no level: the error is the
    /// least there is, the rate that of an empty block, and the samples of the
    /// block are those of the source.
    pub proof fn a_perfect_prediction_leaves_nothing(
        self,
        c: TplSbCtx,
        b: TplBlock,
        m: TplMeasure,
        rec: Seq<u8>,
    )
        requires
            ctx_fits(c),
            block_side(b.size as int),
            keeps_zeros(self.forward),
            self.measured(c, b, source_samples(c, b), m),
            self.left_samples(c, b, source_samples(c, b), m, rec),
        ensures
            m.eob == 0,
            m.error == 1,
            m.rate == if c.compute_rate {
                512
            } else {
                0int
            },
            rec == source_samples(c, b),
    {
        let size = b.size as int;
        let step = row_step(c.subsample_tx as int);
        let pred = source_samples(c, b);
        let res = Self::source_residual(c, b, pred);
        let level = level_at(size);
        assert(scan_fits(c, level));
        assert forall|i: int| 0 <= i < res.len() implies #[trigger] res[i] == 0 by {
            lemma_kept_index(size, step, i);
            let r = (i / size) * step;
            let k = at(0, size, r, i % size);
            lemma_raster_index(r, i % size, size);
            assert(pred[k] == c.input.y@[at(c.input.shape().start(b), c.input.y_stride as int, r, i % size)]);
        }
        let coeff = choose|coeff: Seq<i32>|
            {
                &&& #[trigger] self.transformed(c, b, res, coeff)
                &&& is_measure(
                    m,
                    coeff,
                    c.quant,
                    c.scans@[level]@,
                    tx_at(c, level) == 3,
                    c.compute_rate,
                )
            };
        let (q, v) = choose|q: TxRequest, v: Vec<i32>|
            {
                &&& #[trigger] call_ensures(self.forward, (q,), v)
                &&& q.residual@ == res
                &&& q.tx_size == tx_at(c, level_at(b.size as int))
                &&& q.shape == c.shape
                &&& v@ == coeff
            };
        assert forall|i: int| 0 <= i < q.residual@.len() implies #[trigger] q.residual@[i] == 0 by {
            assert(res[i] == 0);
        }
        assert(v@.len() == res.len());
        assert(res.len() == kept_count(size, step)) by {
            lemma_kept_count(size, step);
        }
        let k = Kernel { dead_zone: false, saturate: true };
        assert(table_wf(c.quant));
        assert forall|i: int| 0 <= i < m.qcoeff@.len() implies #[trigger] m.qcoeff@[i] == 0 by {
            assert(coeff[i] == 0);
            lemma_level_of_zero(c.quant, i);
        }
        lemma_eob_of_zeros(c.scans@[level]@, m.qcoeff@);
        let f = error_at(coeff, m.dqcoeff@);
        assert forall|i: int| 0 <= i < coeff.len() implies 0 <= #[trigger] f(i) <= 0 by {
            assert(coeff[i] == 0);
            assert(m.qcoeff@[i] == 0);
            lemma2_to64();
            let step = weighted_step(c.quant.dequant@, i, 32);
            lemma_mul_by_zero_is_zero(step);
            assert(m.dqcoeff@[i] == 0);
            let d = coeff[i] - m.dqcoeff@[i];
            assert(f(i) == d * d);
            assert(d * d == 0) by (nonlinear_arith)
                requires
                    d == 0,
            ;
        }
        lemma_total_bounds(f, coeff.len() as int, 0, 0);
    }

    /// The search of a block of an intra slice ends in an intra mode.
    pub proof fn intra_slices_have_no_vectors(
        self,
        c: TplSbCtx,
        me: TplMeResults,
        off: int,
        b: TplBlock,
        s: SourceChoice,
    )
        requires
            c.slice_type == SliceType::I,
            c.intra_mode_end <= 12,
            self.chosen(c, me, off, b, s),
        ensures
            s.best_mode != NEWMV,
            s.best_rf_idx == -1,
            s.mv == (Mv { x: 0, y: 0 }),
            s.ref_poc == 0,
    {
        let (costs, offers, i, j) = choose|costs: Seq<i64>, offers: Seq<InterOffer>, i: int, j: int|
            {
                &&& self.intra_costs(c, b, costs)
                &&& self.offers_of(c, me, off, b, candidates(c.slice_type, me, off), offers)
                &&& #[trigger] is_choice(s, costs, offers, i, j)
            };
        assert(offers.len() == 0);
        assert(offer_costs(offers).len() == 0);
        assert(j == -1);
        assert(costs.len() <= 13);
    }

    /// Coding a block changes no sample of the reconstruction but its own.
    pub proof fn blocks_keep_their_surroundings(
        self,
        c: TplSbCtx,
        g: PlaneShape,
        b: TplBlock,
        intra_mode: u8,
        plane: RecSource,
        mv: Mv,
        before: Seq<u8>,
        after: Seq<u8>,
        m: TplMeasure,
        i: int,
    )
        requires
            self.coded(c, g, b, intra_mode, plane, mv, before, after, m),
            0 <= i < before.len(),
            !covered(i, g.start(b), g.stride, b.size as int),
        ensures
            after.len() == before.len(),
            after[i] == before[i],
    {
    }

    /// A block of a frame that nothing refers to is left as it is predicted.
    pub proof fn unreferred_blocks_are_predictions(
        self,
        c: TplSbCtx,
        b: TplBlock,
        pred: Seq<u8>,
        m: TplMeasure,
        rec: Seq<u8>,
    )
        requires
            !referred(c),
            self.left_samples(c, b, pred, m, rec),
        ensures
            rec == pred,
    {
    }
}

} // verus!
