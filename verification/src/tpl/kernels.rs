//! The look-ahead search of one block, around the sample kernels it is given:
//! predictions, their costs, and the reconstruction of the block.

use vstd::arithmetic::mul::{lemma_mul_is_distributive_sub_other_way, lemma_mul_nonnegative};
use vstd::prelude::*;

use crate::arith::total;
use crate::tpl::context::{
    ctx_fits, edges_at, flat_only, intra_plan, level_at, pic_reads, plane_of, refine_plan, referred, scan_fits,
    tpl_square, tx_at, TplSbCtx, TxShape, MODE_TO_ANGLE,
};
use crate::tpl::dispenser::{
    block_written, fractional, predictor_at, samples_of, tpl_adds_residual, tpl_copy_block, tpl_needs_interpolation,
    tpl_predict_intra, tpl_predictor_position, tpl_tx_size, IntraPlan, RecSource, TplBlock,
};
use crate::tpl::samples::{
    add_residual, are_neighbours, block_sad, block_samples, block_satd, block_side, coefficients_fit, gap_at,
    is_measure, kept_count, lemma_kept_count, lemma_kept_index, lemma_side_squares, magnitude_at, moderate,
    neighbours_fit, residual, row_step, subtract_block, take_block, tpl_measure, tpl_neighbours, tpl_row_step,
    with_residual, TplMeasure, PlaneShape, TplPic, TplPicMut,
};
use crate::tpl::search::{tpl_subpel_search, SubpelDepth, SubpelPlan, TplXd, MI_LIMIT};
use crate::types::{MbEdges, Mv};

verus! {

/// An intra prediction to make. The neighbours start with the corner.
#[derive(Debug)]
pub struct IntraRequest {
    pub mode: u8,
    pub angle: i32,
    pub plan: IntraPlan,
    pub size: u32,
    pub above: Vec<u8>,
    pub left: Vec<u8>,
}

/// A residual to transform, row by row.
#[derive(Debug)]
pub struct TxRequest {
    pub residual: Vec<i16>,
    pub tx_size: usize,
    pub shape: TxShape,
}

/// Coefficients to transform back into a residual.
#[derive(Debug)]
pub struct InverseRequest {
    pub coeff: Vec<i32>,
    pub tx_size: usize,
    pub eob: u16,
}

/// A prediction to interpolate.
#[derive(Debug, Clone, Copy)]
pub struct InterpRequest {
    pub plane: RecSource,
    pub block: TplBlock,
    pub mv: Mv,
    pub edges: MbEdges,
}

/// A vector to refine in a reference picture.
#[derive(Debug, Clone, Copy)]
pub struct RefineRequest {
    pub picture: usize,
    pub block: TplBlock,
    pub plan: SubpelPlan,
}

/// The samples of a block less those of a prediction.
pub open spec fn is_residual(res: Seq<i16>) -> bool {
    &&& res.len() <= 4096
    &&& forall|i: int| 0 <= i < res.len() ==> -255 <= #[trigger] res[i] <= 255
}

/// A residual of a block.
pub open spec fn residual_fits(res: Seq<i32>, n: int) -> bool {
    &&& res.len() == n
    &&& forall|i: int| 0 <= i < n ==> -0x3fff_ffff <= #[trigger] res[i] <= 0x3fff_ffff
}

/// The neighbours of a block of the source.
pub open spec fn source_neighbours(c: TplSbCtx, b: TplBlock, above: Seq<u8>, left: Seq<u8>) -> bool {
    are_neighbours(
        c.input.y@,
        c.input.shape(),
        c.input.width as int,
        c.input.height as int,
        b,
        flat_only(c),
        above,
        left,
    )
}

/// A block of the frame that can be searched.
pub open spec fn block_fits(c: TplSbCtx, b: TplBlock) -> bool {
    &&& block_side(b.size as int)
    &&& b.x <= 4 * MI_LIMIT
    &&& b.y <= 4 * MI_LIMIT
    &&& neighbours_fit(c.input.y@.len() as int, c.input.shape(), c.input.width as int, c.input.height as int, b)
    &&& forall|k: int|
        0 <= k < c.ref_pics@.len() ==> (#[trigger] c.ref_pics@[k]).shape().start(b) <= usize::MAX
}

/// The intra mode that a block is coded in.
pub open spec fn mode_again(c: TplSbCtx, intra_mode: u8) -> int {
    if flat_only(c) {
        0
    } else {
        intra_mode as int
    }
}

/// A block that can be reconstructed in a plane.
pub open spec fn recon_fits(c: TplSbCtx, b: TplBlock, recon: TplPicMut) -> bool {
    &&& b.size <= recon.y_stride
    &&& neighbours_fit(recon.y@.len() as int, recon.shape(), c.input.width as int, c.input.height as int, b)
}

/// The sample kernels of the search.
pub struct TplKernels<
    P: Fn(IntraRequest) -> Vec<u8>,
    F: Fn(TxRequest) -> Vec<i32>,
    V: Fn(InverseRequest) -> Vec<i32>,
    M: Fn(InterpRequest) -> Vec<u8>,
    S: Fn(RefineRequest) -> Mv,
> {
    /// Predicts a block from its neighbours.
    pub predict: P,
    /// Transforms a residual.
    pub forward: F,
    /// Transforms coefficients back.
    pub inverse: V,
    /// Predicts a block between the samples of a plane.
    pub interp: M,
    /// Refines a vector.
    pub refine: S,
}

impl<
    P: Fn(IntraRequest) -> Vec<u8>,
    F: Fn(TxRequest) -> Vec<i32>,
    V: Fn(InverseRequest) -> Vec<i32>,
    M: Fn(InterpRequest) -> Vec<u8>,
    S: Fn(RefineRequest) -> Mv,
> TplKernels<P, F, V, M, S> {
    /// The kernels take every request and give as many values as it asks for;
    /// those of transforms are of ordinary size.
    pub open spec fn fit(self) -> bool {
        &&& forall|q: IntraRequest| #[trigger] call_requires(self.predict, (q,))
        &&& forall|q: IntraRequest, v: Vec<u8>| #[trigger]
            call_ensures(self.predict, (q,), v) ==> v@.len() == q.size * q.size
        &&& forall|q: TxRequest| #[trigger] call_requires(self.forward, (q,))
        &&& forall|q: TxRequest, v: Vec<i32>| #[trigger]
            call_ensures(self.forward, (q,), v) && is_residual(q.residual@) ==> coefficients_fit(
                v@,
                q.residual@.len() as int,
            )
        &&& forall|q: InverseRequest| #[trigger] call_requires(self.inverse, (q,))
        &&& forall|q: InverseRequest, v: Vec<i32>| #[trigger]
            call_ensures(self.inverse, (q,), v) ==> residual_fits(v@, q.coeff@.len() as int)
        &&& forall|q: InterpRequest| #[trigger] call_requires(self.interp, (q,))
        &&& forall|q: InterpRequest, v: Vec<u8>| #[trigger]
            call_ensures(self.interp, (q,), v) ==> v@.len() == q.block.size * q.block.size
        &&& forall|q: RefineRequest| #[trigger] call_requires(self.refine, (q,))
    }

    /// The intra prediction of a block in a mode.
    pub open spec fn predicted_intra(
        self,
        c: TplSbCtx,
        b: TplBlock,
        above: Seq<u8>,
        left: Seq<u8>,
        mode: int,
        pred: Seq<u8>,
    ) -> bool {
        exists|q: IntraRequest, v: Vec<u8>|
            {
                &&& #[trigger] call_ensures(self.predict, (q,), v)
                &&& q.mode == mode
                &&& q.angle == MODE_TO_ANGLE[mode]
                &&& q.plan == intra_plan(c, b, mode)
                &&& q.size == b.size
                &&& q.above@ == above
                &&& q.left@ == left
                &&& v@ == pred
            }
    }

    /// The transform of a residual of a block.
    pub open spec fn transformed(self, c: TplSbCtx, b: TplBlock, res: Seq<i16>, coeff: Seq<i32>) -> bool {
        exists|q: TxRequest, v: Vec<i32>|
            {
                &&& #[trigger] call_ensures(self.forward, (q,), v)
                &&& q.residual@ == res
                &&& q.tx_size == tx_at(c, level_at(b.size as int))
                &&& q.shape == c.shape
                &&& v@ == coeff
            }
    }

    /// The residual that the coefficients of a block stand for.
    pub open spec fn restored(self, c: TplSbCtx, b: TplBlock, coeff: Seq<i32>, eob: u16, res: Seq<i32>) -> bool {
        exists|q: InverseRequest, v: Vec<i32>|
            {
                &&& #[trigger] call_ensures(self.inverse, (q,), v)
                &&& q.coeff@ == coeff
                &&& q.tx_size == tx_at(c, level_at(b.size as int))
                &&& q.eob == eob
                &&& v@ == res
            }
    }

    /// The prediction of a block that a vector points to.
    pub open spec fn predicted_inter(self, c: TplSbCtx, plane: RecSource, b: TplBlock, mv: Mv, pred: Seq<u8>) -> bool {
        let p = plane_of(c, plane);
        if fractional(mv) {
            exists|v: Vec<u8>|
                {
                    &&& #[trigger] call_ensures(
                        self.interp,
                        (InterpRequest { plane, block: b, mv, edges: edges_at(c, b) },),
                        v,
                    )
                    &&& v@ == pred
                }
        } else {
            pred == block_samples(
                p.y@,
                predictor_at(p.origin as int, p.y_stride as int, b.x as int, b.y as int, mv),
                p.y_stride as int,
                b.size as int,
            )
        }
    }

    /// The vector that a search from `start` in reference picture `k` ends at.
    pub open spec fn refined(self, c: TplSbCtx, k: int, b: TplBlock, start: Mv, mv: Mv) -> bool {
        if c.subpel_depth is Full {
            mv == start
        } else {
            call_ensures(
                self.refine,
                (RefineRequest { picture: k as usize, block: b, plan: refine_plan(c, k, b, start) },),
                mv,
            )
        }
    }

    /// What a block of the source differs by from a prediction.
    pub open spec fn source_residual(c: TplSbCtx, b: TplBlock, pred: Seq<u8>) -> Seq<i16> {
        residual(
            c.input.y@,
            c.input.shape().start(b),
            c.input.y_stride as int,
            pred,
            b.size as int,
            row_step(c.subsample_tx as int),
        )
    }

    /// Cost of a prediction in the search on the source: the gaps of all
    /// samples, or the magnitudes of the coefficients for the rows that are
    /// transformed and those they stand for.
    pub open spec fn costs(self, c: TplSbCtx, b: TplBlock, pred: Seq<u8>, cost: i64) -> bool {
        if c.use_sad_in_src_search {
            cost == total(
                gap_at(c.input.y@, c.input.shape().start(b), c.input.y_stride as int, pred, b.size as int),
                b.size * b.size,
            )
        } else {
            exists|coeff: Seq<i32>|
                {
                    &&& #[trigger] self.transformed(c, b, Self::source_residual(c, b, pred), coeff)
                    &&& cost == row_step(c.subsample_tx as int) * total(magnitude_at(coeff), coeff.len() as int)
                }
        }
    }

    /// What quantizing a block with a prediction leaves, and costs.
    pub open spec fn measured(self, c: TplSbCtx, b: TplBlock, pred: Seq<u8>, m: TplMeasure) -> bool {
        let level = level_at(b.size as int);
        exists|coeff: Seq<i32>|
            {
                &&& #[trigger] self.transformed(c, b, Self::source_residual(c, b, pred), coeff)
                &&& is_measure(m, coeff, c.quant, c.scans@[level]@, tx_at(c, level) == 3, c.compute_rate)
            }
    }

    /// Cost of an intra mode in the search on the source.
    pub open spec fn intra_cost(
        self,
        c: TplSbCtx,
        b: TplBlock,
        above: Seq<u8>,
        left: Seq<u8>,
        mode: int,
        cost: i64,
    ) -> bool {
        exists|pred: Seq<u8>|
            {
                &&& #[trigger] self.predicted_intra(c, b, above, left, mode, pred)
                &&& self.costs(c, b, pred, cost)
            }
    }

    /// Costs of the intra modes: none where intra prediction is left out.
    pub open spec fn intra_costs(self, c: TplSbCtx, b: TplBlock, costs: Seq<i64>) -> bool {
        if c.disable_intra_pred {
            costs.len() == 0
        } else {
            &&& costs.len() == c.intra_mode_end + 1
            &&& exists|above: Seq<u8>, left: Seq<u8>|
                {
                    &&& #[trigger] source_neighbours(c, b, above, left)
                    &&& forall|mode: int|
                        0 <= mode < costs.len() ==> self.intra_cost(c, b, above, left, mode, #[trigger] costs[mode])
                }
        }
    }

    /// The prediction of a block that is to be coded: an intra block from the
    /// samples reconstructed so far, an inter block from a reconstruction.
    pub open spec fn predicted_again(
        self,
        c: TplSbCtx,
        g: PlaneShape,
        recon: Seq<u8>,
        b: TplBlock,
        intra_mode: u8,
        plane: RecSource,
        mv: Mv,
        pred: Seq<u8>,
    ) -> bool {
        if plane is Intra {
            exists|above: Seq<u8>, left: Seq<u8>|
                {
                    &&& are_neighbours(
                        recon,
                        g,
                        c.input.width as int,
                        c.input.height as int,
                        b,
                        flat_only(c),
                        above,
                        left,
                    )
                    &&& #[trigger] self.predicted_intra(
                        c,
                        b,
                        above,
                        left,
                        mode_again(c, intra_mode),
                        pred,
                    )
                }
        } else {
            self.predicted_inter(c, plane, b, mv, pred)
        }
    }

    /// The samples a coded block leaves: its prediction, with the residual
    /// added where the frame may be referred to and a level is left.
    pub open spec fn left_samples(self, c: TplSbCtx, b: TplBlock, pred: Seq<u8>, m: TplMeasure, rec: Seq<u8>) -> bool {
        if referred(c) && m.eob != 0 {
            exists|res: Seq<i32>|
                {
                    &&& #[trigger] self.restored(c, b, m.dqcoeff@, m.eob, res)
                    &&& rec == with_residual(pred, res, b.size as int, row_step(c.subsample_tx as int))
                }
        } else {
            rec == pred
        }
    }

    /// A block is coded: predicted, measured, and written into the
    /// reconstruction.
    pub open spec fn coded(
        self,
        c: TplSbCtx,
        g: PlaneShape,
        b: TplBlock,
        intra_mode: u8,
        plane: RecSource,
        mv: Mv,
        before: Seq<u8>,
        after: Seq<u8>,
        m: TplMeasure,
    ) -> bool {
        exists|pred: Seq<u8>, rec: Seq<u8>|
            {
                &&& self.predicted_again(c, g, before, b, intra_mode, plane, mv, pred)
                &&& self.measured(c, b, pred, m)
                &&& #[trigger] self.left_samples(c, b, pred, m, rec)
                &&& block_written(
                    before,
                    after,
                    g.start(b),
                    g.stride,
                    b.size as int,
                    samples_of(rec, 0, b.size as int),
                )
            }
    }

    /// Index of the first sample of a block of the source.
    fn source_start(c: &TplSbCtx, b: TplBlock) -> (r: usize)
        requires
            block_fits(*c, b),
        ensures
            r == c.input.shape().start(b),
            r + (b.size - 1) * c.input.y_stride + b.size <= c.input.y@.len(),
    {
        let len: usize = c.input.y.len();
        proof {
            lemma_mul_nonnegative(b.y as int, c.input.y_stride as int);
            lemma_mul_nonnegative(b.size - 1, c.input.y_stride as int);
        }
        c.input.origin + b.y as usize * c.input.y_stride + b.x as usize
    }

    /// Transform of a block.
    fn tx_size_of(c: &TplSbCtx, b: TplBlock) -> (r: usize)
        requires
            block_side(b.size as int),
        ensures
            r == tx_at(*c, level_at(b.size as int)),
    {
        let level: usize = if b.size == 16 {
            0
        } else if b.size == 32 {
            1
        } else {
            2
        };
        tpl_tx_size(level, c.subsample_tx)
    }

    /// Predicts a block in an intra mode.
    fn intra_prediction(&self, c: &TplSbCtx, b: TplBlock, above: &Vec<u8>, left: &Vec<u8>, mode: u8) -> (pred: Vec<u8>)
        requires
            self.fit(),
            ctx_fits(*c),
            block_fits(*c, b),
            mode <= 12,
        ensures
            self.predicted_intra(*c, b, above@, left@, mode as int, pred@),
            pred@.len() == b.size * b.size,
    {
        let angle: i32 = MODE_TO_ANGLE[mode as usize];
        let full: IntraPlan = tpl_predict_intra(
            mode,
            angle,
            c.max_input_luma_width,
            c.max_input_luma_height,
            b.x,
            b.y,
            b.size as usize,
        );
        let plan: IntraPlan = if c.use_sad_in_src_search && c.intra_mode_end == 0 {
            IntraPlan { edges: None, reach: b.size as usize, has_left: b.x > 0, has_above: b.y > 0 }
        } else {
            full
        };
        assert(plan == intra_plan(*c, b, mode as int));
        let q: IntraRequest = IntraRequest {
            mode,
            angle,
            plan,
            size: b.size,
            above: vstd::slice::slice_to_vec(above.as_slice()),
            left: vstd::slice::slice_to_vec(left.as_slice()),
        };
        let ghost asked = q;
        let v: Vec<u8> = (self.predict)(q);
        assert(call_ensures(self.predict, (asked,), v));
        v
    }

    /// Transforms what a block of the source differs by from a prediction.
    fn coefficients(&self, c: &TplSbCtx, b: TplBlock, pred: &Vec<u8>) -> (coeff: Vec<i32>)
        requires
            self.fit(),
            ctx_fits(*c),
            block_fits(*c, b),
            pred@.len() == b.size * b.size,
        ensures
            self.transformed(*c, b, Self::source_residual(*c, b, pred@), coeff@),
            coefficients_fit(coeff@, kept_count(b.size as int, row_step(c.subsample_tx as int))),
    {
        let o: usize = Self::source_start(c, b);
        let step: usize = tpl_row_step(c.subsample_tx);
        let residual: Vec<i16> = subtract_block(
            c.input.y,
            o,
            c.input.y_stride,
            pred.as_slice(),
            b.size as usize,
            step,
        );
        proof {
            lemma_kept_count(b.size as int, step as int);
            assert forall|i: int| 0 <= i < residual@.len() implies -255 <= #[trigger] residual@[i] <= 255 by {
                lemma_kept_index(b.size as int, step as int, i);
            }
            assert(is_residual(residual@));
        }
        let q: TxRequest = TxRequest { residual, tx_size: Self::tx_size_of(c, b), shape: c.shape };
        let ghost asked = q;
        let v: Vec<i32> = (self.forward)(q);
        assert(call_ensures(self.forward, (asked,), v));
        v
    }

    /// Cost of a prediction in the search on the source.
    pub fn prediction_cost(&self, c: &TplSbCtx, b: TplBlock, pred: &Vec<u8>) -> (cost: i64)
        requires
            self.fit(),
            ctx_fits(*c),
            block_fits(*c, b),
            pred@.len() == b.size * b.size,
        ensures
            self.costs(*c, b, pred@, cost),
    {
        if c.use_sad_in_src_search {
            let o: usize = Self::source_start(c, b);
            block_sad(c.input.y, o, c.input.y_stride, pred.as_slice(), b.size as usize)
        } else {
            let coeff: Vec<i32> = self.coefficients(c, b, pred);
            let step: usize = tpl_row_step(c.subsample_tx);
            proof {
                lemma_kept_count(b.size as int, step as int);
            }
            let satd: i64 = block_satd(coeff.as_slice());
            let cost: i64 = if step == 4 {
                4 * satd
            } else if step == 2 {
                2 * satd
            } else {
                satd
            };
            assert(self.transformed(*c, b, Self::source_residual(*c, b, pred@), coeff@));
            cost
        }
    }

    /// Quantizes a block with a prediction, and measures the outcome.
    pub fn measure(&self, c: &TplSbCtx, b: TplBlock, pred: &Vec<u8>) -> (m: TplMeasure)
        requires
            self.fit(),
            ctx_fits(*c),
            block_fits(*c, b),
            pred@.len() == b.size * b.size,
        ensures
            self.measured(*c, b, pred@, m),
            moderate(m.error),
            moderate(m.rate),
            m.dqcoeff@.len() == kept_count(b.size as int, row_step(c.subsample_tx as int)),
    {
        let coeff: Vec<i32> = self.coefficients(c, b, pred);
        let tx_size: usize = Self::tx_size_of(c, b);
        let level: usize = if b.size == 16 {
            0
        } else if b.size == 32 {
            1
        } else {
            2
        };
        proof {
            lemma_kept_count(b.size as int, row_step(c.subsample_tx as int));
            assert(scan_fits(*c, level as int));
        }
        let m: TplMeasure = tpl_measure(
            coeff.as_slice(),
            &c.quant,
            c.scans[level].as_slice(),
            tx_size == 3,
            c.compute_rate,
        );
        assert(self.transformed(*c, b, Self::source_residual(*c, b, pred@), coeff@));
        m
    }

    /// Costs of the intra modes on the source.
    pub fn intra_search(&self, c: &TplSbCtx, b: TplBlock) -> (costs: Vec<i64>)
        requires
            self.fit(),
            ctx_fits(*c),
            block_fits(*c, b),
        ensures
            self.intra_costs(*c, b, costs@),
            costs@.len() <= 13,
    {
        let mut costs: Vec<i64> = Vec::new();
        if !c.disable_intra_pred {
            let flat: bool = c.use_sad_in_src_search && c.intra_mode_end == 0;
            let (above, left): (Vec<u8>, Vec<u8>) = tpl_neighbours(
                c.input.y,
                c.input.y_stride,
                c.input.origin,
                c.input.width,
                c.input.height,
                b,
                flat,
            );
            assert(source_neighbours(*c, b, above@, left@));
            let mut mode: u8 = 0;
            while mode <= c.intra_mode_end
                invariant
                    self.fit(),
                    ctx_fits(*c),
                    block_fits(*c, b),
                    mode <= c.intra_mode_end + 1,
                    costs@.len() == mode,
                    forall|k: int|
                        0 <= k < mode ==> self.intra_cost(*c, b, above@, left@, k, #[trigger] costs@[k]),
                decreases c.intra_mode_end + 1 - mode,
            {
                let pred: Vec<u8> = self.intra_prediction(c, b, &above, &left, mode);
                let cost: i64 = self.prediction_cost(c, b, &pred);
                assert(self.intra_cost(*c, b, above@, left@, mode as int, cost));
                costs.push(cost);
                mode = mode + 1;
            }
        }
        costs
    }

    /// Predicts a block from a plane.
    pub fn inter_prediction(&self, c: &TplSbCtx, plane: RecSource, b: TplBlock, mv: Mv) -> (pred: Vec<u8>)
        requires
            self.fit(),
            ctx_fits(*c),
            block_side(b.size as int),
            b.x <= 4 * MI_LIMIT,
            b.y <= 4 * MI_LIMIT,
            plane matches RecSource::Window(j) ==> j < c.rec_refs@.len(),
            plane matches RecSource::Picture(k) ==> k < c.ref_pics@.len(),
            pic_reads(plane_of(*c, plane), b, mv),
        ensures
            self.predicted_inter(*c, plane, b, mv, pred@),
            pred@.len() == b.size * b.size,
    {
        if tpl_needs_interpolation(mv) {
            let xd: TplXd = TplXd::new(c.mi_rows, c.mi_cols, tpl_square(b.size), b.x, b.y);
            let edges: MbEdges = xd.edges();
            assert(edges == edges_at(*c, b));
            let v: Vec<u8> = (self.interp)(InterpRequest { plane, block: b, mv, edges });
            assert(call_ensures(
                self.interp,
                (InterpRequest { plane, block: b, mv, edges: edges_at(*c, b) },),
                v,
            ));
            v
        } else {
            let p: TplPic = match plane {
                RecSource::Intra => c.input,
                RecSource::Window(j) => c.rec_refs[j],
                RecSource::Picture(k) => c.ref_pics[k],
            };
            let o: usize = tpl_predictor_position(p.origin as i32, p.y_stride as i32, b.x, b.y, mv);
            let v: Vec<u8> = take_block(p.y, o, p.y_stride, b.size as usize);
            proof {
                lemma_side_squares(b.size as int);
            }
            v
        }
    }

    /// Refines a vector in a reference picture.
    pub fn refine_vector(&self, c: &TplSbCtx, k: usize, b: TplBlock, start: Mv) -> (mv: Mv)
        requires
            self.fit(),
            ctx_fits(*c),
            block_fits(*c, b),
            k < c.ref_pics@.len(),
        ensures
            self.refined(*c, k as int, b, start, mv),
    {
        match c.subpel_depth {
            SubpelDepth::Full => start,
            _ => {
                let len: usize = c.input.y.len();
                proof {
                    lemma_mul_nonnegative(b.size - 1, c.input.y_stride as int);
                    assert(c.input.shape().start(b) <= len);
                    assert(c.ref_pics@[k as int].shape().start(b) <= usize::MAX);
                }
                let plan: SubpelPlan = tpl_subpel_search(
                    c.subpel_depth,
                    c.subpel_diag_refinement,
                    c.mi_rows,
                    c.mi_cols,
                    tpl_square(b.size),
                    b.x,
                    b.y,
                    c.ref_pics[k].origin,
                    c.ref_pics[k].y_stride,
                    c.input.origin,
                    c.input.y_stride,
                    c.rdmult,
                    start,
                );
                assert(plan == refine_plan(*c, k as int, b, start));
                (self.refine)(RefineRequest { picture: k, block: b, plan })
            },
        }
    }

    /// Codes a block: predicts it from reconstructions, measures what is left,
    /// and writes what is reconstructed of it.
    pub fn tpl_code_block(
        &self,
        c: &TplSbCtx,
        b: TplBlock,
        intra_mode: u8,
        plane: RecSource,
        mv: Mv,
        recon: &mut TplPicMut,
    ) -> (m: TplMeasure)
        requires
            self.fit(),
            ctx_fits(*c),
            block_fits(*c, b),
            recon_fits(*c, b, *old(recon)),
            plane is Intra ==> intra_mode <= 12,
            plane matches RecSource::Window(j) ==> j < c.rec_refs@.len(),
            plane matches RecSource::Picture(k) ==> k < c.ref_pics@.len(),
            !(plane is Intra) ==> pic_reads(plane_of(*c, plane), b, mv),
        ensures
            final(recon).same_frame(*old(recon)),
            self.coded(*c, old(recon).shape(), b, intra_mode, plane, mv, old(recon).y@, final(recon).y@, m),
            moderate(m.error),
            moderate(m.rate),
    {
        let ghost before = recon.y@;
        let ghost g = recon.shape();
        let is_intra: bool = matches!(plane, RecSource::Intra);
        let pred: Vec<u8> = if is_intra {
            let flat: bool = c.use_sad_in_src_search && c.intra_mode_end == 0;
            let (above, left): (Vec<u8>, Vec<u8>) = tpl_neighbours(
                recon.y.as_slice(),
                recon.y_stride,
                recon.origin,
                c.input.width,
                c.input.height,
                b,
                flat,
            );
            let mode: u8 = if flat {
                0
            } else {
                intra_mode
            };
            let p: Vec<u8> = self.intra_prediction(c, b, &above, &left, mode);
            assert(self.predicted_intra(*c, b, above@, left@, mode_again(*c, intra_mode), p@));
            p
        } else {
            self.inter_prediction(c, plane, b, mv)
        };
        assert(self.predicted_again(*c, g, before, b, intra_mode, plane, mv, pred@));
        let m: TplMeasure = self.measure(c, b, &pred);
        let size: usize = b.size as usize;
        let ghost step = row_step(c.subsample_tx as int);
        proof {
            lemma_side_squares(b.size as int);
            lemma_kept_count(b.size as int, step);
            lemma_mul_nonnegative(b.y as int, recon.y_stride as int);
            lemma_mul_nonnegative(b.size - 1, recon.y_stride as int);
        }
        let rec: Vec<u8> = if tpl_adds_residual(c.disable_intra_pred, c.tpl_data.is_ref, m.eob) {
            let q: InverseRequest = InverseRequest {
                coeff: vstd::slice::slice_to_vec(m.dqcoeff.as_slice()),
                tx_size: Self::tx_size_of(c, b),
                eob: m.eob,
            };
            let ghost asked = q;
            let res: Vec<i32> = (self.inverse)(q);
            assert(call_ensures(self.inverse, (asked,), res));
            assert(self.restored(*c, b, m.dqcoeff@, m.eob, res@));
            add_residual(pred.as_slice(), res.as_slice(), size, tpl_row_step(c.subsample_tx))
        } else {
            vstd::slice::slice_to_vec(pred.as_slice())
        };
        assert(self.left_samples(*c, b, pred@, m, rec@));
        assert(0 + (size - 1) * size + size == size * size) by {
            lemma_mul_is_distributive_sub_other_way(size as int, size as int, 1);
        }
        let len: usize = recon.y.len();
        let o: usize = recon.origin + b.y as usize * recon.y_stride + b.x as usize;
        let stride: usize = recon.y_stride;
        tpl_copy_block(rec.as_slice(), 0, size, recon.y.as_mut_slice(), o, stride, size);
        m
    }
}

} // verus!
