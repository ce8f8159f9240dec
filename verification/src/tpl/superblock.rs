//! The look-ahead search of a superblock: every block is searched on the
//! source, coded from reconstructions, and leaves its statistics.

use vstd::arithmetic::mul::lemma_mul_nonnegative;
use vstd::prelude::*;

use crate::tpl::context::{
    candidate, candidates, choice_fits, ctx_fits, in_window, me_blocks, me_fits, named_ref, rec_source, start_mv,
    vector_at, vector_reads, TplMeCand, TplMeResults, TplSbCtx,
};
use crate::tpl::dispenser::{
    block_stats, block_x, block_y, candidate_usable, half_inside, is_choice, lemma_level_blocks, level_has, level_size,
    rf_in_list, rf_list, rf_position, stat_scale, tpl_block, tpl_block_stats, tpl_candidate_ref, tpl_choose_source,
    tpl_keep_source, tpl_me_offset, tpl_recall_source, tpl_recon_source, tpl_start_mv, tpl_stat, InterOffer, RecSource,
    SourceChoice, TplBlock, TplRef,
};
use crate::tpl::kernels::{
    block_fits, recon_fits, InterpRequest, IntraRequest, InverseRequest, RefineRequest, TplKernels, TxRequest,
};
use crate::tpl::samples::{PlaneShape, TplMeasure, TplPic, TplPicMut};
use crate::tpl::search::{
    block_stored, cells_per_side, first_cell, grid_stride, result_model_store, shared_among,
};
use crate::tpl::{TplSrcStats, TplStats, BLK_END_ARRAY, BLK_START_ARRAY, NEWMV, TPL_BLK_IDX_TAB};
use crate::types::{Mv, SliceType};

verus! {

impl<
    P: Fn(IntraRequest) -> Vec<u8>,
    F: Fn(TxRequest) -> Vec<i32>,
    V: Fn(InverseRequest) -> Vec<i32>,
    M: Fn(InterpRequest) -> Vec<u8>,
    S: Fn(RefineRequest) -> Mv,
> TplKernels<P, F, V, M, S> {
    /// An offer of a candidate: the refined vector and the cost of its
    /// prediction.
    pub open spec fn is_offer(
        self,
        c: TplSbCtx,
        me: TplMeResults,
        off: int,
        b: TplBlock,
        cand: TplMeCand,
        offer: InterOffer,
    ) -> bool {
        let list = cand.direction as int;
        let r = named_ref(cand);
        let ds = c.tpl_data.tpl_ref_ds[list][r];
        &&& self.refined(c, ds.pic_index as int, b, start_mv(c, me, off, b, list, r), offer.mv)
        &&& self.inter_cost(c, RecSource::Picture(ds.pic_index), b, offer.mv, offer.cost)
        &&& offer.rf_idx == rf_position(list, r)
        &&& offer.ref_poc == ds.picture_number
    }

    /// Cost of the prediction a vector points to.
    pub open spec fn inter_cost(self, c: TplSbCtx, plane: RecSource, b: TplBlock, mv: Mv, cost: i64) -> bool {
        exists|pred: Seq<u8>| #[trigger] self.predicted_inter(c, plane, b, mv, pred) && self.costs(c, b, pred, cost)
    }

    /// The offers of the first `n` candidates of a block: one of each
    /// candidate that can be used, in order.
    pub open spec fn offers_of(
        self,
        c: TplSbCtx,
        me: TplMeResults,
        off: int,
        b: TplBlock,
        n: int,
        offers: Seq<InterOffer>,
    ) -> bool
        decreases n,
    {
        if n <= 0 {
            offers.len() == 0
        } else {
            let cand = candidate(me, off, n - 1);
            if candidate_usable(cand.direction, named_ref(cand), c.tpl_data, c.base_tpl_valid_pic@) {
                &&& offers.len() > 0
                &&& self.is_offer(c, me, off, b, cand, offers.last())
                &&& self.offers_of(c, me, off, b, n - 1, offers.drop_last())
            } else {
                self.offers_of(c, me, off, b, n - 1, offers)
            }
        }
    }

    /// The search of a block on the source ended in a choice.
    pub open spec fn chosen(self, c: TplSbCtx, me: TplMeResults, off: int, b: TplBlock, s: SourceChoice) -> bool {
        exists|costs: Seq<i64>, offers: Seq<InterOffer>, i: int, j: int|
            {
                &&& self.intra_costs(c, b, costs)
                &&& self.offers_of(c, me, off, b, candidates(c.slice_type, me, off), offers)
                &&& #[trigger] is_choice(s, costs, offers, i, j)
            }
    }

    /// The measure of a prediction from the source.
    pub open spec fn source_measure(self, c: TplSbCtx, b: TplBlock, s: SourceChoice, m: TplMeasure) -> bool {
        let ds = c.tpl_data.tpl_ref_ds[rf_list(s.best_rf_idx as int)][rf_in_list(s.best_rf_idx as int)];
        exists|pred: Seq<u8>|
            {
                &&& #[trigger] self.predicted_inter(c, RecSource::Picture(ds.pic_index), b, s.mv, pred)
                &&& self.measured(c, b, pred, m)
            }
    }

    /// Distortion and rate of a block predicted from the source: none for an
    /// intra block.
    pub open spec fn priced(self, c: TplSbCtx, b: TplBlock, s: SourceChoice, dist: int, rate: int) -> bool {
        if s.best_mode == NEWMV {
            exists|m: TplMeasure|
                {
                    &&& #[trigger] self.source_measure(c, b, s, m)
                    &&& dist == stat_scale(m.error as int, c.subsample_tx as int)
                    &&& rate == stat_scale(m.rate as int, c.subsample_tx as int)
                }
        } else {
            dist == 0 && rate == 0
        }
    }

    /// A block is coded from reconstructions, and leaves its samples and its
    /// statistics.
    pub open spec fn left_stats(
        self,
        c: TplSbCtx,
        g: PlaneShape,
        b: TplBlock,
        s: SourceChoice,
        dist: int,
        rate: int,
        before: Seq<u8>,
        after: Seq<u8>,
        st: TplStats,
    ) -> bool {
        exists|r: RecSource, m: TplMeasure|
            {
                &&& rec_source(c, s, r)
                &&& #[trigger] self.coded(c, g, b, s.best_intra_mode, r, s.mv, before, after, m)
                &&& st == block_stats(
                    s,
                    dist,
                    rate,
                    stat_scale(m.error as int, c.subsample_tx as int),
                    stat_scale(m.rate as int, c.subsample_tx as int),
                    c.tpl_data.tpl_slice_type,
                )
            }
    }

    /// The vectors that the search of a block may end at can be read.
    pub open spec fn vectors_read(self, c: TplSbCtx, me: TplMeResults, off: int, b: TplBlock) -> bool {
        forall|n: int, mv: Mv|
            0 <= n < candidates(c.slice_type, me, off) && #[trigger] self.reaches(c, me, off, b, n, mv) ==> {
                let cand = candidate(me, off, n);
                let ds = c.tpl_data.tpl_ref_ds[cand.direction as int][named_ref(cand)];
                vector_reads(c, cand.direction as int, named_ref(cand), ds.picture_number, b, mv)
            }
    }

    /// The refinement of candidate `n` may end at a vector.
    pub open spec fn reaches(self, c: TplSbCtx, me: TplMeResults, off: int, b: TplBlock, n: int, mv: Mv) -> bool {
        let cand = candidate(me, off, n);
        let list = cand.direction as int;
        let r = named_ref(cand);
        &&& candidate_usable(cand.direction, r, c.tpl_data, c.base_tpl_valid_pic@)
        &&& self.refined(
            c,
            c.tpl_data.tpl_ref_ds[list][r].pic_index as int,
            b,
            start_mv(c, me, off, b, list, r),
            mv,
        )
    }

    /// Refines the candidates of a block and takes the costs of their
    /// predictions.
    fn gather_offers(&self, ctx: &TplSbCtx, me: &TplMeResults, off: usize, b: TplBlock) -> (offers: Vec<InterOffer>)
        requires
            self.fit(),
            off < me_blocks(ctx.enable_me_16x16),
            ctx_fits(*ctx),
            me_fits(ctx.slice_type, *me, me_blocks(ctx.enable_me_16x16)),
            block_fits(*ctx, b),
            self.vectors_read(*ctx, *me, off as int, b),
        ensures
            self.offers_of(*ctx, *me, off as int, b, candidates(ctx.slice_type, *me, off as int), offers@),
            forall|i: int| 0 <= i < offers@.len() ==> offer_fits(*ctx, b, #[trigger] offers@[i]),
    {
        let mut offers: Vec<InterOffer> = Vec::new();
        let total: usize = if matches!(ctx.slice_type, SliceType::I) || me.total_me_candidate_index.len() == 0 {
            0
        } else {
            me.total_me_candidate_index[off] as usize
        };
        let mut n: usize = 0;
        while n < total
            invariant
                n <= total,
                total == candidates(ctx.slice_type, *me, off as int),
                self.fit(),
                off < me_blocks(ctx.enable_me_16x16),
                ctx_fits(*ctx),
                me_fits(ctx.slice_type, *me, me_blocks(ctx.enable_me_16x16)),
                block_fits(*ctx, b),
                self.vectors_read(*ctx, *me, off as int, b),
                self.offers_of(*ctx, *me, off as int, b, n as int, offers@),
                forall|i: int| 0 <= i < offers@.len() ==> offer_fits(*ctx, b, #[trigger] offers@[i]),
            decreases total - n,
        {
            let ghost cand = candidate(*me, off as int, n as int);
            proof {
                assert(off * me.max_cand <= 20 * me.max_cand) by (nonlinear_arith)
                    requires
                        off <= 20,
                ;
                assert(off * me.max_refs <= 20 * me.max_refs) by (nonlinear_arith)
                    requires
                        off <= 20,
                ;
                lemma_mul_nonnegative(off as int, me.max_cand as int);
                lemma_mul_nonnegative(off as int, me.max_refs as int);
                assert(cand.ref_idx_l0 < 4);
            }
            let c: TplMeCand = me.me_candidate_array[off * me.max_cand + n];
            let found: Option<TplRef> = tpl_candidate_ref(
                c.direction,
                c.ref_idx_l0,
                c.ref_idx_l1,
                &ctx.tpl_data,
                ctx.base_tpl_valid_pic.as_slice(),
            );
            if let Some(r) = found {
                let at: usize = off * me.max_refs + (if r.list != 0 {
                    me.max_l0
                } else {
                    0
                }) + r.ref_idx;
                assert(at == vector_at(*me, off as int, r.list as int, r.ref_idx as int));
                let ghost ds = ctx.tpl_data.tpl_ref_ds[r.list as int][r.ref_idx as int];
                assert(ds.pic_index < ctx.ref_pics@.len());
                let poc: u64 = ctx.tpl_data.tpl_ref_ds[r.list][r.ref_idx].picture_number;
                let k: usize = ctx.tpl_data.tpl_ref_ds[r.list][r.ref_idx].pic_index;
                let pic: TplPic = ctx.ref_pics[k];
                let start: Mv = tpl_start_mv(me.me_mv_array[at], b, pic.max_width, pic.max_height);
                assert(start == start_mv(*ctx, *me, off as int, b, r.list as int, r.ref_idx as int));
                let mv: Mv = self.refine_vector(ctx, k, b, start);
                proof {
                    assert(self.reaches(*ctx, *me, off as int, b, n as int, mv));
                    assert(vector_reads(*ctx, r.list as int, r.ref_idx as int, ds.picture_number, b, mv));
                }
                let pred: Vec<u8> = self.inter_prediction(ctx, RecSource::Picture(k), b, mv);
                let cost: i64 = self.prediction_cost(ctx, b, &pred);
                let ghost before = offers@;
                offers.push(InterOffer { cost, rf_idx: r.rf_idx, ref_poc: poc, mv });
                proof {
                    assert(self.predicted_inter(*ctx, RecSource::Picture(k), b, mv, pred@));
                    assert(offers@.drop_last() =~= before);
                    assert(self.is_offer(*ctx, *me, off as int, b, cand, offers@.last()));
                    assert(in_window(*ctx, ds.picture_number, r.list as int, r.ref_idx as int));
                    assert(offer_fits(*ctx, b, offers@.last()));
                }
            }
            n = n + 1;
        }
        offers
    }

    /// Searches a block on the source.
    fn search_source(&self, ctx: &TplSbCtx, me: &TplMeResults, off: usize, b: TplBlock) -> (r: (SourceChoice, i64, i64))
        requires
            self.fit(),
            off < me_blocks(ctx.enable_me_16x16),
            ctx_fits(*ctx),
            me_fits(ctx.slice_type, *me, me_blocks(ctx.enable_me_16x16)),
            block_fits(*ctx, b),
            self.vectors_read(*ctx, *me, off as int, b),
        ensures
            self.chosen(*ctx, *me, off as int, b, r.0),
            self.priced(*ctx, b, r.0, r.1 as int, r.2 as int),
            choice_fits(*ctx, b, r.0),
    {
        let costs: Vec<i64> = self.intra_search(ctx, b);
        let offers: Vec<InterOffer> = self.gather_offers(ctx, me, off, b);
        let s: SourceChoice = tpl_choose_source(costs.as_slice(), offers.as_slice());
        proof {
            let (i, j) = choose|i: int, j: int| #[trigger] is_choice(s, costs@, offers@, i, j);
            assert(is_choice(s, costs@, offers@, i, j));
            assert(self.chosen(*ctx, *me, off as int, b, s));
            if s.best_mode == NEWMV {
                assert(j != -1);
                assert(offer_fits(*ctx, b, offers@[j]));
            }
        }
        if s.best_mode == NEWMV {
            let (l, i): (usize, usize) = if s.best_rf_idx < 4 {
                (0, s.best_rf_idx as usize)
            } else {
                (1, (s.best_rf_idx - 4) as usize)
            };
            let k: usize = ctx.tpl_data.tpl_ref_ds[l][i].pic_index;
            let ghost ds = ctx.tpl_data.tpl_ref_ds[l as int][i as int];
            assert(ds.pic_index < ctx.ref_pics@.len());
            let pred: Vec<u8> = self.inter_prediction(ctx, RecSource::Picture(k), b, s.mv);
            let m: TplMeasure = self.measure(ctx, b, &pred);
            proof {
                assert(self.predicted_inter(*ctx, RecSource::Picture(k), b, s.mv, pred@));
                assert(self.source_measure(*ctx, b, s, m));
            }
            (s, tpl_stat(m.error, ctx.subsample_tx), tpl_stat(m.rate, ctx.subsample_tx))
        } else {
            (s, 0, 0)
        }
    }

    /// Codes a block from reconstructions, and gives its statistics.
    fn code_block(
        &self,
        ctx: &TplSbCtx,
        b: TplBlock,
        s: &SourceChoice,
        dist: i64,
        rate: i64,
        recon: &mut TplPicMut,
    ) -> (st: TplStats)
        requires
            self.fit(),
            ctx_fits(*ctx),
            block_fits(*ctx, b),
            recon_fits(*ctx, b, *old(recon)),
            choice_fits(*ctx, b, *s),
        ensures
            final(recon).same_frame(*old(recon)),
            self.left_stats(
                *ctx,
                old(recon).shape(),
                b,
                *s,
                dist as int,
                rate as int,
                old(recon).y@,
                final(recon).y@,
                st,
            ),
    {
        let r: RecSource = tpl_recon_source(s, &ctx.tpl_data, ctx.poc_map_idx.as_slice());
        proof {
            assert(rec_source(*ctx, *s, r));
            if s.best_mode == NEWMV {
                let l = rf_list(s.best_rf_idx as int);
                let i = rf_in_list(s.best_rf_idx as int);
                let ds = ctx.tpl_data.tpl_ref_ds[l][i];
                assert(ds.pic_index < ctx.ref_pics@.len());
            }
        }
        let m: TplMeasure = self.tpl_code_block(ctx, b, s.best_intra_mode, r, s.mv, recon);
        tpl_block_stats(s, dist, rate, m.error, m.rate, ctx.subsample_tx, ctx.tpl_data.tpl_slice_type)
    }

    /// The search of a block on the source: taken up from an earlier pass, or
    /// made anew and kept where another pass follows.
    pub open spec fn source_step(
        self,
        c: TplSbCtx,
        me: TplMeResults,
        off: int,
        b: TplBlock,
        before: Seq<TplSrcStats>,
        after: Seq<TplSrcStats>,
        s: SourceChoice,
        dist: int,
        rate: int,
    ) -> bool {
        let at = kept_at(c, b);
        if c.tpl_src_data_ready {
            &&& s == recalled(before[at])
            &&& dist == before[at].srcrf_dist
            &&& rate == before[at].srcrf_rate
            &&& after == before
        } else {
            &&& self.chosen(c, me, off, b, s)
            &&& self.priced(c, b, s, dist, rate)
            &&& after == if c.keep_source {
                before.update(at, to_keep(s, dist, rate))
            } else {
                before
            }
        }
    }

    /// A block is searched on the source, coded, and leaves its statistics.
    pub open spec fn block_step(
        self,
        c: TplSbCtx,
        g: PlaneShape,
        me: TplMeResults,
        off: int,
        b: TplBlock,
        before: SbState,
        after: SbState,
    ) -> bool {
        exists|s: SourceChoice, dist: int, rate: int, st: TplStats|
            {
                &&& self.source_step(c, me, off, b, before.kept, after.kept, s, dist, rate)
                &&& #[trigger] self.left_stats(c, g, b, s, dist, rate, before.recon, after.recon, st)
                &&& store_step(c, b, st, before.grid, after.grid)
            }
    }

    /// Searches, codes and stores a block.
    pub fn tpl_dispense_block(
        &self,
        ctx: &TplSbCtx,
        me: &TplMeResults,
        off: usize,
        b: TplBlock,
        recon: &mut TplPicMut,
        grid: &mut Vec<TplStats>,
        kept: &mut Vec<TplSrcStats>,
    )
        requires
            self.fit(),
            off < me_blocks(ctx.enable_me_16x16),
            ctx_fits(*ctx),
            me_fits(ctx.slice_type, *me, me_blocks(ctx.enable_me_16x16)),
            block_fits(*ctx, b),
            recon_fits(*ctx, b, *old(recon)),
            !ctx.tpl_src_data_ready ==> self.vectors_read(*ctx, *me, off as int, b),
            room_for(*ctx, b, old(grid)@, old(kept)@),
        ensures
            final(recon).same_frame(*old(recon)),
            final(grid)@.len() == old(grid)@.len(),
            final(kept)@.len() == old(kept)@.len(),
            self.block_step(
                *ctx,
                old(recon).shape(),
                *me,
                off as int,
                b,
                (SbState { recon: old(recon).y@, grid: old(grid)@, kept: old(kept)@ }),
                (SbState { recon: final(recon).y@, grid: final(grid)@, kept: final(kept)@ }),
            ),
    {
        let ghost before = SbState { recon: recon.y@, grid: grid@, kept: kept@ };
        let ghost g = recon.shape();
        let (s, dist, rate): (SourceChoice, i64, i64) = if ctx.tpl_src_data_ready {
            let at: usize = kept_index(ctx, b, kept.len());
            let old_stats: TplSrcStats = kept[at];
            (tpl_recall_source(&old_stats), old_stats.srcrf_dist, old_stats.srcrf_rate)
        } else {
            let found: (SourceChoice, i64, i64) = self.search_source(ctx, me, off, b);
            if ctx.keep_source {
                let at: usize = kept_index(ctx, b, kept.len());
                kept[at] = tpl_keep_source(&found.0, found.1, found.2);
            }
            found
        };
        assert(self.source_step(*ctx, *me, off as int, b, before.kept, kept@, s, dist as int, rate as int));
        let mut st: TplStats = self.code_block(ctx, b, &s, dist, rate, recon);
        let ghost st0 = st;
        result_model_store(
            &mut st,
            grid.as_mut_slice(),
            ctx.synth_blk_size,
            ctx.aligned_width,
            b.x,
            b.y,
            b.size,
        );
        proof {
            let after = SbState { recon: recon.y@, grid: grid@, kept: kept@ };
            assert(self.left_stats(*ctx, g, b, s, dist as int, rate as int, before.recon, after.recon, st0));
            assert(store_step(*ctx, b, st0, before.grid, after.grid));
            assert(self.source_step(*ctx, *me, off as int, b, before.kept, after.kept, s, dist as int, rate as int));
            assert(self.block_step(*ctx, g, *me, off as int, b, before, after));
        }
    }

    /// What block `i` of a superblock changes: nothing where most of it lies
    /// outside the frame.
    pub open spec fn sb_step(
        self,
        c: TplSbCtx,
        g: PlaneShape,
        me: TplMeResults,
        level: int,
        i: int,
        before: SbState,
        after: SbState,
    ) -> bool {
        if is_searched(c, level, i) {
            self.block_step(c, g, me, me_position(c, i), sb_block(c, level, i), before, after)
        } else {
            after == before
        }
    }

    /// The states of a superblock before each of the blocks of a level, and
    /// after the last.
    pub open spec fn is_trace(
        self,
        c: TplSbCtx,
        g: PlaneShape,
        me: TplMeResults,
        level: int,
        trace: Seq<SbState>,
    ) -> bool {
        &&& trace.len() >= 1
        &&& forall|k: int|
            0 <= k < trace.len() - 1 ==> #[trigger] self.sb_step(
                c,
                g,
                me,
                level,
                BLK_START_ARRAY[level] + k,
                trace[k],
                trace[k + 1],
            )
    }

    proof fn lemma_longer_trace(
        self,
        c: TplSbCtx,
        g: PlaneShape,
        me: TplMeResults,
        level: int,
        trace: Seq<SbState>,
        after: SbState,
    )
        requires
            self.is_trace(c, g, me, level, trace),
            self.sb_step(c, g, me, level, BLK_START_ARRAY[level] + trace.len() - 1, trace.last(), after),
        ensures
            self.is_trace(c, g, me, level, trace.push(after)),
    {
        let longer = trace.push(after);
        assert forall|k: int| 0 <= k < longer.len() - 1 implies #[trigger] self.sb_step(
            c,
            g,
            me,
            level,
            BLK_START_ARRAY[level] + k,
            longer[k],
            longer[k + 1],
        ) by {
            if k < trace.len() - 1 {
                assert(self.sb_step(c, g, me, level, BLK_START_ARRAY[level] + k, trace[k], trace[k + 1]));
            }
        }
    }

    /// Searches block `i` of a superblock, if half of it lies inside the frame.
    fn dispense_at(
        &self,
        ctx: &TplSbCtx,
        level: usize,
        i: usize,
        me: &TplMeResults,
        recon: &mut TplPicMut,
        grid: &mut Vec<TplStats>,
        kept: &mut Vec<TplSrcStats>,
    )
        requires
            self.fit(),
            level < 3,
            level_has(level as int, i as int),
            !ctx.enable_me_16x16 && !ctx.tpl_src_data_ready ==> level < 2,
            ctx_fits(*ctx),
            me_fits(ctx.slice_type, *me, me_blocks(ctx.enable_me_16x16)),
            is_searched(*ctx, level as int, i as int) ==> self.block_ready(
                *ctx,
                *me,
                level as int,
                i as int,
                *old(recon),
                old(grid)@,
                old(kept)@,
            ),
        ensures
            final(recon).same_frame(*old(recon)),
            final(grid)@.len() == old(grid)@.len(),
            final(kept)@.len() == old(kept)@.len(),
            ctx.tpl_src_data_ready ==> final(kept)@ == old(kept)@,
            self.sb_step(
                *ctx,
                old(recon).shape(),
                *me,
                level as int,
                i as int,
                (SbState { recon: old(recon).y@, grid: old(grid)@, kept: old(kept)@ }),
                (SbState { recon: final(recon).y@, grid: final(grid)@, kept: final(kept)@ }),
            ),
    {
        proof {
            lemma_level_blocks(level as int, i as int);
        }
        let found: Option<TplBlock> = tpl_block(level, i, ctx.sb_x, ctx.sb_y, ctx.input.width, ctx.input.height);
        if let Some(b) = found {
            assert(b == sb_block(*ctx, level as int, i as int));
            assert(level < 2 ==> i > 0);
            let off: usize = if ctx.tpl_src_data_ready {
                0
            } else {
                tpl_me_offset(i, ctx.enable_me_16x16)
            };
            self.tpl_dispense_block(ctx, me, off, b, recon, grid, kept);
        }
    }

    /// What the search of a superblock changes.
    pub open spec fn sb_done(
        self,
        c: TplSbCtx,
        g: PlaneShape,
        me: TplMeResults,
        level: int,
        before: SbState,
        after: SbState,
    ) -> bool {
        exists|trace: Seq<SbState>|
            {
                &&& #[trigger] self.is_trace(c, g, me, level, trace)
                &&& trace.len() == BLK_END_ARRAY[level] - BLK_START_ARRAY[level] + 2
                &&& trace.first() == before
                &&& trace.last() == after
            }
    }

    /// Block `i` of a superblock can be searched.
    pub open spec fn block_ready(
        self,
        c: TplSbCtx,
        me: TplMeResults,
        level: int,
        i: int,
        recon: TplPicMut,
        grid: Seq<TplStats>,
        kept: Seq<TplSrcStats>,
    ) -> bool {
        let b = sb_block(c, level, i);
        &&& block_fits(c, b)
        &&& recon_fits(c, b, recon)
        &&& !c.tpl_src_data_ready ==> self.vectors_read(c, me, me_position(c, i), b)
        &&& room_for(c, b, grid, kept)
    }

    /// A superblock can be searched.
    pub open spec fn sb_ready(
        self,
        c: TplSbCtx,
        me: TplMeResults,
        level: int,
        recon: TplPicMut,
        grid: Seq<TplStats>,
        kept: Seq<TplSrcStats>,
    ) -> bool {
        &&& 0 <= level < 3
        &&& !c.enable_me_16x16 && !c.tpl_src_data_ready ==> level < 2
        &&& ctx_fits(c)
        &&& me_fits(c.slice_type, me, me_blocks(c.enable_me_16x16))
        &&& forall|i: int|
            level_has(level, i) && is_searched(c, level, i) ==> #[trigger] self.block_ready(
                c,
                me,
                level,
                i,
                recon,
                grid,
                kept,
            )
    }
}

/// An offer that a block can be reconstructed from.
pub open spec fn offer_fits(c: TplSbCtx, b: TplBlock, o: InterOffer) -> bool {
    let l = rf_list(o.rf_idx as int);
    let i = rf_in_list(o.rf_idx as int);
    &&& 0 <= o.rf_idx < 8
    &&& in_window(c, o.ref_poc, l, i)
    &&& vector_reads(c, l, i, o.ref_poc, b, o.mv)
}

/// What the search of a superblock changes.
pub struct SbState {
    /// The samples of the reconstruction.
    pub recon: Seq<u8>,
    /// The statistics of the frame, cell by cell.
    pub grid: Seq<TplStats>,
    /// The outcomes of the search on the source.
    pub kept: Seq<TplSrcStats>,
}

/// Place of the outcome of a block.
pub open spec fn kept_at(c: TplSbCtx, b: TplBlock) -> int {
    (b.y as int / 16) * c.aligned16_width + b.x as int / 16
}

/// Place of the outcome of a block among `len` of them.
fn kept_index(ctx: &TplSbCtx, b: TplBlock, len: usize) -> (r: usize)
    requires
        kept_at(*ctx, b) < len,
    ensures
        r == kept_at(*ctx, b),
{
    proof {
        lemma_mul_nonnegative(b.y as int / 16, ctx.aligned16_width as int);
    }
    (b.y as usize / 16) * ctx.aligned16_width + b.x as usize / 16
}

/// Outcome of a search as a choice.
pub open spec fn recalled(s: TplSrcStats) -> SourceChoice {
    SourceChoice {
        best_mode: s.best_mode,
        best_intra_mode: s.best_intra_mode,
        best_rf_idx: s.best_rf_idx,
        ref_poc: s.ref_frame_poc,
        mv: s.mv,
    }
}

/// Outcome of a search as it is kept.
pub open spec fn to_keep(s: SourceChoice, dist: int, rate: int) -> TplSrcStats {
    TplSrcStats {
        srcrf_dist: dist as i64,
        srcrf_rate: rate as i64,
        ref_frame_poc: s.ref_poc,
        mv: s.mv,
        best_mode: s.best_mode,
        best_rf_idx: s.best_rf_idx,
        best_intra_mode: s.best_intra_mode,
    }
}

/// The statistics of a block stored in the grid.
pub open spec fn store_step(c: TplSbCtx, b: TplBlock, st: TplStats, before: Seq<TplStats>, after: Seq<TplStats>) -> bool {
    let n = cells_per_side(c.synth_blk_size, b.size);
    block_stored(
        before,
        after,
        shared_among(
            st,
            if n > 1 {
                n * n
            } else {
                1
            },
        ),
        first_cell(c.synth_blk_size, c.aligned_width as int, b.x as int, b.y as int),
        grid_stride(c.synth_blk_size, c.aligned_width as int),
        n,
    )
}

/// The buffers have room for a block, and what was kept of it can be taken
/// up.
pub open spec fn room_for(c: TplSbCtx, b: TplBlock, grid: Seq<TplStats>, kept: Seq<TplSrcStats>) -> bool {
    let n = cells_per_side(c.synth_blk_size, b.size);
    let stride = grid_stride(c.synth_blk_size, c.aligned_width as int);
    let first = first_cell(c.synth_blk_size, c.aligned_width as int, b.x as int, b.y as int);
    &&& first <= usize::MAX
    &&& n > 0 ==> first + (n - 1) * stride + (n - 1) < grid.len()
    &&& c.tpl_src_data_ready || c.keep_source ==> 0 <= kept_at(c, b) < kept.len()
    &&& c.tpl_src_data_ready ==> choice_fits(c, b, recalled(kept[kept_at(c, b)]))
}

/// Block `i` of a superblock.
pub open spec fn sb_block(c: TplSbCtx, level: int, i: int) -> TplBlock {
    TplBlock {
        size: level_size(level) as u32,
        x: (c.sb_x + block_x(i)) as u32,
        y: (c.sb_y + block_y(i)) as u32,
    }
}

/// Half of block `i` at least lies inside the frame.
pub open spec fn is_searched(c: TplSbCtx, level: int, i: int) -> bool {
    half_inside(c.sb_x + block_x(i), c.sb_y + block_y(i), level_size(level), c.input.width as int, c.input.height as int)
}

/// Motion-search position of block `i`; none is read where the search on the
/// source is there already.
pub open spec fn me_position(c: TplSbCtx, i: int) -> int {
    if c.tpl_src_data_ready {
        0
    } else if c.enable_me_16x16 {
        TPL_BLK_IDX_TAB[1][i] as int
    } else {
        (TPL_BLK_IDX_TAB[1][i] - 1) / 4
    }
}

/// Searches the blocks of a superblock in order: each on the source, then
/// from reconstructions.
pub fn tpl_mc_flow_dispenser_sb_generic<
    P: Fn(IntraRequest) -> Vec<u8>,
    F: Fn(TxRequest) -> Vec<i32>,
    V: Fn(InverseRequest) -> Vec<i32>,
    M: Fn(InterpRequest) -> Vec<u8>,
    S: Fn(RefineRequest) -> Mv,
>(
    ctx: &TplSbCtx,
    dispenser_search_level: usize,
    me: &TplMeResults,
    recon: &mut TplPicMut,
    grid: &mut Vec<TplStats>,
    kept: &mut Vec<TplSrcStats>,
    kernels: &TplKernels<P, F, V, M, S>,
)
    requires
        kernels.fit(),
        kernels.sb_ready(*ctx, *me, dispenser_search_level as int, *old(recon), old(grid)@, old(kept)@),
    ensures
        final(recon).same_frame(*old(recon)),
        final(grid)@.len() == old(grid)@.len(),
        final(kept)@.len() == old(kept)@.len(),
        ctx.tpl_src_data_ready ==> final(kept)@ == old(kept)@,
        kernels.sb_done(
            *ctx,
            old(recon).shape(),
            *me,
            dispenser_search_level as int,
            (SbState { recon: old(recon).y@, grid: old(grid)@, kept: old(kept)@ }),
            (SbState { recon: final(recon).y@, grid: final(grid)@, kept: final(kept)@ }),
        ),
{
    let level: usize = dispenser_search_level;
    let first: usize = BLK_START_ARRAY[level] as usize;
    let end: usize = BLK_END_ARRAY[level] as usize + 1;
    let ghost recon0 = *recon;
    let ghost g = recon.shape();
    let ghost grid0 = grid@;
    let ghost kept0 = kept@;
    let ghost mut trace: Seq<SbState> = seq![SbState { recon: recon0.y@, grid: grid0, kept: kept0 }];
    let mut i: usize = first;
    while i < end
        invariant
            level == dispenser_search_level,
            level < 3,
            first == BLK_START_ARRAY[level as int],
            end == BLK_END_ARRAY[level as int] + 1,
            first <= i <= end,
            kernels.fit(),
            kernels.sb_ready(*ctx, *me, level as int, recon0, grid0, kept0),
            recon.same_frame(recon0),
            g == recon0.shape(),
            grid@.len() == grid0.len(),
            kept@.len() == kept0.len(),
            ctx.tpl_src_data_ready ==> kept@ == kept0,
            kernels.is_trace(*ctx, g, *me, level as int, trace),
            trace.len() == i - first + 1,
            trace.first() == (SbState { recon: recon0.y@, grid: grid0, kept: kept0 }),
            trace.last() == (SbState { recon: recon.y@, grid: grid@, kept: kept@ }),
        decreases end - i,
    {
        assert(level_has(level as int, i as int));
        assert(is_searched(*ctx, level as int, i as int) ==> kernels.block_ready(
            *ctx,
            *me,
            level as int,
            i as int,
            recon0,
            grid0,
            kept0,
        ));
        assert(is_searched(*ctx, level as int, i as int) ==> kernels.block_ready(
            *ctx,
            *me,
            level as int,
            i as int,
            *recon,
            grid@,
            kept@,
        ));
        kernels.dispense_at(ctx, level, i, me, recon, grid, kept);
        proof {
            let after = SbState { recon: recon.y@, grid: grid@, kept: kept@ };
            kernels.lemma_longer_trace(*ctx, g, *me, level as int, trace, after);
            trace = trace.push(after);
        }
        i = i + 1;
    }
    assert(kernels.is_trace(*ctx, g, *me, level as int, trace));
}

/// A search that was kept is taken up as it was: the next pass goes on from
/// the same choice, at the same distortion and rate.
pub proof fn kept_searches_are_taken_up(s: SourceChoice, dist: i64, rate: i64)
    ensures
        recalled(to_keep(s, dist as int, rate as int)) == s,
        to_keep(s, dist as int, rate as int).srcrf_dist == dist,
        to_keep(s, dist as int, rate as int).srcrf_rate == rate,
{
}

} // verus!
