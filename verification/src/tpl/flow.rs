//! The look-ahead over a window of frames: every superblock of every valid
//! frame is searched, in order, and then every frame passes on what it owes to
//! its references.

use vstd::prelude::*;

use crate::arith::{div_trunc, min_int};
use crate::tpl::context::{TplMeResults, TplSbCtx};
use crate::tpl::dispenser::{level_has, tpl_sb_level};
use crate::tpl::kernels::{InterpRequest, IntraRequest, InverseRequest, RefineRequest, TplKernels, TxRequest};
use crate::tpl::model::{
    carried_by, frame_qindex, geos, grids, holds_blocks, is_function, mi_side, qindex_fits, sweep_block,
    tpl_base_rdmult, tpl_clear_stats, tpl_frames_in_window, tpl_mc_flow_synthesis, tpl_qindex, window_fits,
    window_ok, window_priced, window_walk, PicGeo, TplSynthPic,
};
use crate::tpl::samples::{PlaneShape, TplPic, TplPicMut};
use crate::tpl::superblock::{is_searched, tpl_mc_flow_dispenser_sb_generic, SbState};
use crate::tpl::{empty_stats, TplData, TplSrcStats, TplStats};
use crate::types::Mv;

verus! {

/// A superblock of a frame.
#[derive(Debug, Clone, Copy, PartialEq, Eq, Structural)]
pub struct TplSb {
    pub org_x: u32,
    pub org_y: u32,
    /// It lies inside the frame completely.
    pub is_full_64x64: bool,
}

/// The superblock as the search sees it.
pub open spec fn ctx_at(c: TplSbCtx, sb: TplSb) -> TplSbCtx {
    TplSbCtx { sb_x: sb.org_x, sb_y: sb.org_y, ..c }
}

/// Search level of a superblock: the finest at the frame edge.
pub open spec fn level_of(sb: TplSb, search_level: u8) -> int {
    if sb.is_full_64x64 {
        search_level as int
    } else {
        0
    }
}

impl<
    P: Fn(IntraRequest) -> Vec<u8>,
    F: Fn(TxRequest) -> Vec<i32>,
    V: Fn(InverseRequest) -> Vec<i32>,
    M: Fn(InterpRequest) -> Vec<u8>,
    S: Fn(RefineRequest) -> Mv,
> TplKernels<P, F, V, M, S> {
    /// The states of a frame before each of its superblocks, and after the
    /// last.
    pub open spec fn is_frame_trace(
        self,
        c: TplSbCtx,
        g: PlaneShape,
        sbs: Seq<TplSb>,
        me: Seq<TplMeResults>,
        search_level: u8,
        trace: Seq<SbState>,
    ) -> bool {
        &&& trace.len() >= 1
        &&& forall|k: int|
            0 <= k < trace.len() - 1 ==> #[trigger] self.sb_done(
                ctx_at(c, sbs[k]),
                g,
                me[k],
                level_of(sbs[k], search_level),
                trace[k],
                trace[k + 1],
            )
    }

    proof fn lemma_longer_frame_trace(
        self,
        c: TplSbCtx,
        g: PlaneShape,
        sbs: Seq<TplSb>,
        me: Seq<TplMeResults>,
        search_level: u8,
        trace: Seq<SbState>,
        after: SbState,
    )
        requires
            self.is_frame_trace(c, g, sbs, me, search_level, trace),
            ({
                let k = trace.len() - 1;
                self.sb_done(ctx_at(c, sbs[k]), g, me[k], level_of(sbs[k], search_level), trace.last(), after)
            }),
        ensures
            self.is_frame_trace(c, g, sbs, me, search_level, trace.push(after)),
    {
        let longer = trace.push(after);
        assert forall|k: int| 0 <= k < longer.len() - 1 implies #[trigger] self.sb_done(
            ctx_at(c, sbs[k]),
            g,
            me[k],
            level_of(sbs[k], search_level),
            longer[k],
            longer[k + 1],
        ) by {
            if k < trace.len() - 1 {
                assert(self.sb_done(
                    ctx_at(c, sbs[k]),
                    g,
                    me[k],
                    level_of(sbs[k], search_level),
                    trace[k],
                    trace[k + 1],
                ));
            }
        }
    }

    /// What the search of the superblocks of a frame changes.
    pub open spec fn frame_done(
        self,
        c: TplSbCtx,
        g: PlaneShape,
        sbs: Seq<TplSb>,
        me: Seq<TplMeResults>,
        search_level: u8,
        before: SbState,
        after: SbState,
    ) -> bool {
        exists|trace: Seq<SbState>|
            {
                &&& #[trigger] self.is_frame_trace(c, g, sbs, me, search_level, trace)
                &&& trace.len() == sbs.len() + 1
                &&& trace.first() == before
                &&& trace.last() == after
            }
    }

    /// Searches the superblocks of a frame in order.
    fn dispense_frame(
        &self,
        ctx: &mut TplSbCtx,
        sb_geom: &Vec<TplSb>,
        me_results: &Vec<TplMeResults>,
        dispenser_search_level: u8,
        recon: &mut TplPicMut,
        grid: &mut Vec<TplStats>,
        kept: &mut Vec<TplSrcStats>,
    )
        requires
            self.fit(),
            me_results@.len() == sb_geom@.len(),
            forall|k: int|
                0 <= k < sb_geom@.len() ==> self.sb_ready(
                    ctx_at(*old(ctx), #[trigger] sb_geom@[k]),
                    me_results@[k],
                    level_of(sb_geom@[k], dispenser_search_level),
                    *old(recon),
                    old(grid)@,
                    old(kept)@,
                ),
        ensures
            *final(ctx) == (TplSbCtx { sb_x: final(ctx).sb_x, sb_y: final(ctx).sb_y, ..*old(ctx) }),
            final(recon).same_frame(*old(recon)),
            final(grid)@.len() == old(grid)@.len(),
            final(kept)@.len() == old(kept)@.len(),
            self.frame_done(
                *old(ctx),
                old(recon).shape(),
                sb_geom@,
                me_results@,
                dispenser_search_level,
                (SbState { recon: old(recon).y@, grid: old(grid)@, kept: old(kept)@ }),
                (SbState { recon: final(recon).y@, grid: final(grid)@, kept: final(kept)@ }),
            ),
    {
        let ghost c = *ctx;
        let ghost recon0 = *recon;
        let ghost g = recon.shape();
        let ghost grid0 = grid@;
        let ghost kept0 = kept@;
        let ghost mut trace: Seq<SbState> = seq![SbState { recon: recon0.y@, grid: grid0, kept: kept0 }];
        let mut k: usize = 0;
        while k < sb_geom.len()
            invariant
                k <= sb_geom@.len(),
                me_results@.len() == sb_geom@.len(),
                self.fit(),
                *ctx == (TplSbCtx { sb_x: ctx.sb_x, sb_y: ctx.sb_y, ..c }),
                forall|j: int|
                    0 <= j < sb_geom@.len() ==> self.sb_ready(
                        ctx_at(c, #[trigger] sb_geom@[j]),
                        me_results@[j],
                        level_of(sb_geom@[j], dispenser_search_level),
                        recon0,
                        grid0,
                        kept0,
                    ),
                recon.same_frame(recon0),
                g == recon0.shape(),
                grid@.len() == grid0.len(),
                kept@.len() == kept0.len(),
                c.tpl_src_data_ready ==> kept@ == kept0,
                self.is_frame_trace(c, g, sb_geom@, me_results@, dispenser_search_level, trace),
                trace.len() == k + 1,
                trace.first() == (SbState { recon: recon0.y@, grid: grid0, kept: kept0 }),
                trace.last() == (SbState { recon: recon.y@, grid: grid@, kept: kept@ }),
            decreases sb_geom@.len() - k,
        {
            let sb: TplSb = sb_geom[k];
            ctx.sb_x = sb.org_x;
            ctx.sb_y = sb.org_y;
            let level: usize = tpl_sb_level(sb.is_full_64x64, dispenser_search_level);
            proof {
                assert(*ctx == ctx_at(c, sb_geom@[k as int]));
                assert(self.sb_ready(*ctx, me_results@[k as int], level as int, recon0, grid0, kept0));
                self.lemma_still_ready(
                    *ctx,
                    me_results@[k as int],
                    level as int,
                    recon0,
                    *recon,
                    grid0,
                    grid@,
                    kept0,
                    kept@,
                );
            }
            tpl_mc_flow_dispenser_sb_generic(ctx, level, &me_results[k], recon, grid, kept, self);
            proof {
                let after = SbState { recon: recon.y@, grid: grid@, kept: kept@ };
                self.lemma_longer_frame_trace(
                    c,
                    g,
                    sb_geom@,
                    me_results@,
                    dispenser_search_level,
                    trace,
                    after,
                );
                trace = trace.push(after);
            }
            k = k + 1;
        }
        assert(self.is_frame_trace(c, g, sb_geom@, me_results@, dispenser_search_level, trace));
    }

    proof fn lemma_still_ready(
        self,
        c: TplSbCtx,
        me: TplMeResults,
        level: int,
        recon0: TplPicMut,
        recon: TplPicMut,
        grid0: Seq<TplStats>,
        grid: Seq<TplStats>,
        kept0: Seq<TplSrcStats>,
        kept: Seq<TplSrcStats>,
    )
        requires
            self.sb_ready(c, me, level, recon0, grid0, kept0),
            recon.same_frame(recon0),
            grid.len() == grid0.len(),
            kept.len() == kept0.len(),
            c.tpl_src_data_ready ==> kept == kept0,
        ensures
            self.sb_ready(c, me, level, recon, grid, kept),
    {
        assert forall|i: int| level_has(level, i) && is_searched(c, level, i) implies #[trigger] self.block_ready(
            c,
            me,
            level,
            i,
            recon,
            grid,
            kept,
        ) by {
            assert(self.block_ready(c, me, level, i, recon0, grid0, kept0));
        }
    }
}

/// The reconstruction of a frame has been padded.
pub open spec fn was_padded<W: Fn(TplPicMut) -> Vec<u8>>(
    pad: W,
    frame: TplPicMut,
    samples: Seq<u8>,
    padded: Seq<u8>,
) -> bool {
    exists|q: TplPicMut, v: Vec<u8>|
        {
            &&& #[trigger] call_ensures(pad, (q,), v)
            &&& q.same_frame(frame)
            &&& q.y@ == samples
            &&& v@ == padded
        }
}

/// Searches the superblocks of a frame in order, pads its reconstruction, and
/// gives the rate multiplier of the frame.
pub fn tpl_mc_flow_dispenser<
    P: Fn(IntraRequest) -> Vec<u8>,
    F: Fn(TxRequest) -> Vec<i32>,
    V: Fn(InverseRequest) -> Vec<i32>,
    M: Fn(InterpRequest) -> Vec<u8>,
    S: Fn(RefineRequest) -> Mv,
    W: Fn(TplPicMut) -> Vec<u8>,
    R: Fn(i32) -> i32,
>(
    qp: u8,
    extended_crf_qindex_offset: i32,
    enable_tpl_qps: bool,
    delta_qindex: i32,
    ctx: &mut TplSbCtx,
    sb_geom: &Vec<TplSb>,
    me_results: &Vec<TplMeResults>,
    dispenser_search_level: u8,
    recon: &mut TplPicMut,
    grid: &mut Vec<TplStats>,
    kept: &mut Vec<TplSrcStats>,
    kernels: &TplKernels<P, F, V, M, S>,
    pad: &W,
    rd_mult: &R,
) -> (r: i32)
    requires
        qindex_fits(qp as int, extended_crf_qindex_offset as int, enable_tpl_qps, delta_qindex as int),
        kernels.fit(),
        forall|q: TplPicMut| #[trigger] call_requires(*pad, (q,)),
        call_requires(
            *rd_mult,
            (frame_qindex(
                qp as int,
                extended_crf_qindex_offset as int,
                enable_tpl_qps,
                delta_qindex as int,
            ) as i32,),
        ),
        me_results@.len() == sb_geom@.len(),
        forall|k: int|
            0 <= k < sb_geom@.len() ==> kernels.sb_ready(
                ctx_at(*old(ctx), #[trigger] sb_geom@[k]),
                me_results@[k],
                level_of(sb_geom@[k], dispenser_search_level),
                *old(recon),
                old(grid)@,
                old(kept)@,
            ),
    ensures
        *final(ctx) == (TplSbCtx { sb_x: final(ctx).sb_x, sb_y: final(ctx).sb_y, ..*old(ctx) }),
        exists|after: SbState|
            {
                &&& #[trigger] kernels.frame_done(
                    *old(ctx),
                    old(recon).shape(),
                    sb_geom@,
                    me_results@,
                    dispenser_search_level,
                    (SbState { recon: old(recon).y@, grid: old(grid)@, kept: old(kept)@ }),
                    after,
                )
                &&& final(grid)@ == after.grid
                &&& final(kept)@ == after.kept
                &&& was_padded(*pad, *old(recon), after.recon, final(recon).y@)
            },
        *final(recon) == (TplPicMut { y: final(recon).y, ..*old(recon) }),
        exists|x: i32| #[trigger]
            call_ensures(
                *rd_mult,
                (frame_qindex(
                    qp as int,
                    extended_crf_qindex_offset as int,
                    enable_tpl_qps,
                    delta_qindex as int,
                ) as i32,),
                x,
            ) && r == div_trunc(x as int, 6),
{
    let ghost before = SbState { recon: recon.y@, grid: grid@, kept: kept@ };
    let ghost recon0 = *recon;
    let qindex: i32 = tpl_qindex(qp, extended_crf_qindex_offset, enable_tpl_qps, delta_qindex);
    let rdmult: i32 = rd_mult(qindex);
    assert(call_ensures(
        *rd_mult,
        (frame_qindex(qp as int, extended_crf_qindex_offset as int, enable_tpl_qps, delta_qindex as int) as i32,),
        rdmult,
    ));
    kernels.dispense_frame(ctx, sb_geom, me_results, dispenser_search_level, recon, grid, kept);
    let ghost after = SbState { recon: recon.y@, grid: grid@, kept: kept@ };
    let q: TplPicMut = TplPicMut {
        y: vstd::slice::slice_to_vec(recon.y.as_slice()),
        y_stride: recon.y_stride,
        width: recon.width,
        height: recon.height,
        border: recon.border,
        origin: recon.origin,
    };
    let ghost asked = q;
    let v: Vec<u8> = pad(q);
    assert(call_ensures(*pad, (asked,), v));
    recon.y = v;
    assert(was_padded(*pad, recon0, after.recon, recon.y@));
    tpl_base_rdmult(rdmult)
}

/// A frame of the window.
#[derive(Debug)]
pub struct TplWindowFrame {
    pub picture_number: u64,
    pub aligned_width: u32,
    pub mi_rows: i32,
    pub mi_cols: i32,
    /// The references of the frame.
    pub tpl_data: TplData,
    pub stats: Vec<TplStats>,
    /// What the search on the source found, one entry for each 16x16 block.
    pub src_stats: Vec<TplSrcStats>,
    /// The frame is searched.
    pub valid: bool,
    /// The outcome of its search on the source is there.
    pub tpl_src_data_ready: bool,
}

/// What the search of a frame of the window works on.
#[derive(Debug)]
pub struct TplDispenseArgs<'a> {
    pub frame_idx: usize,
    /// The frame, with its statistics cleared.
    pub frame: TplWindowFrame,
    /// Reconstruction of the frame.
    pub recon: TplPicMut,
    /// Reconstructions of the window; the one of the frame itself is empty.
    pub ref_pics: Vec<TplPic<'a>>,
    /// Picture numbers of the window up to the frame.
    pub poc_map_idx: Vec<u64>,
}

/// What the search of a frame leaves.
#[derive(Debug)]
pub struct TplDispensed {
    pub stats: Vec<TplStats>,
    pub src_stats: Vec<TplSrcStats>,
    pub recon: TplPicMut,
}

/// A reconstruction as other frames read it.
pub open spec fn shows(p: TplPic, r: TplPicMut) -> bool {
    &&& p.y@ == r.y@
    &&& p.y_stride == r.y_stride
    &&& p.width == r.width
    &&& p.height == r.height
    &&& p.max_width == r.width
    &&& p.max_height == r.height
    &&& p.origin == r.origin
}

/// The reconstructions of a window as frame `i` reads them: its own is empty.
pub open spec fn window_shows(pics: Seq<TplPic>, recons: Seq<TplPicMut>, i: int) -> bool {
    &&& pics.len() == recons.len()
    &&& forall|k: int|
        0 <= k < pics.len() ==> if k == i {
            (#[trigger] pics[k]).y@.len() == 0
        } else {
            shows(pics[k], recons[k])
        }
}

/// The frame as it is handed to its search.
pub open spec fn cleared(before: TplWindowFrame, f: TplWindowFrame) -> bool {
    &&& f == (TplWindowFrame { stats: f.stats, ..before })
    &&& f.stats@ == Seq::new(before.stats@.len(), |k: int| empty_stats())
}

/// The search of frame `i` of a window has left statistics, of the frame and
/// of its source, and a reconstruction.
pub open spec fn frame_dispensed<D: Fn(TplDispenseArgs) -> TplDispensed>(
    dispense: D,
    w: Seq<TplWindowFrame>,
    recons: Seq<TplPicMut>,
    i: int,
    stats: Seq<TplStats>,
    src_stats: Seq<TplSrcStats>,
    recon: TplPicMut,
) -> bool {
    exists|q: TplDispenseArgs, r: TplDispensed|
        {
            &&& #[trigger] call_ensures(dispense, (q,), r)
            &&& q.frame_idx == i
            &&& cleared(w[i], q.frame)
            &&& q.recon == recons[i]
            &&& window_shows(q.ref_pics@, recons, i)
            &&& q.poc_map_idx@ == Seq::new((i + 1) as nat, |k: int| w[k].picture_number)
            &&& r.stats@ == stats
            &&& r.src_stats@ == src_stats
            &&& r.recon == recon
        }
}

/// What frame `i` of a window leaves, and changes of the reconstructions:
/// nothing where it is not valid.
pub open spec fn window_step<D: Fn(TplDispenseArgs) -> TplDispensed>(
    dispense: D,
    w: Seq<TplWindowFrame>,
    i: int,
    stats: Seq<TplStats>,
    src_stats: Seq<TplSrcStats>,
    before: Seq<TplPicMut>,
    after: Seq<TplPicMut>,
) -> bool {
    if w[i].valid {
        exists|recon: TplPicMut| #[trigger]
            frame_dispensed(dispense, w, before, i, stats, src_stats, recon) && after == before.update(i, recon)
    } else {
        &&& after == before
        &&& stats == Seq::new(w[i].stats@.len(), |k: int| empty_stats())
        &&& src_stats == w[i].src_stats@
    }
}

/// The grids that the search of the first frames of a window leaves, what it
/// leaves of the search on their sources, and the reconstructions before each frame and after the last.
pub open spec fn is_search<D: Fn(TplDispenseArgs) -> TplDispensed>(
    dispense: D,
    w: Seq<TplWindowFrame>,
    g: Seq<Seq<TplStats>>,
    src: Seq<Seq<TplSrcStats>>,
    recons: Seq<Seq<TplPicMut>>,
) -> bool {
    &&& recons.len() == g.len() + 1
    &&& src.len() == g.len()
    &&& forall|i: int|
        0 <= i < g.len() ==> window_step(dispense, w, i, #[trigger] g[i], src[i], recons[i], recons[i + 1])
}

/// Grids that the search may leave for the first frames of a window.
pub open spec fn may_leave<D: Fn(TplDispenseArgs) -> TplDispensed>(
    dispense: D,
    w: Seq<TplWindowFrame>,
    recons: Seq<TplPicMut>,
    g: Seq<Seq<TplStats>>,
) -> bool {
    &&& g.len() == min_int(w.len() as int, 512)
    &&& exists|src: Seq<Seq<TplSrcStats>>, steps: Seq<Seq<TplPicMut>>| #[trigger]
        is_search(dispense, w, g, src, steps) && steps.first() == recons
}

/// A frame of the window after it has been searched, but for its statistics.
pub open spec fn frame_kept(before: TplWindowFrame, after: TplWindowFrame, tpl_lad_mg: u8) -> bool {
    after == (TplWindowFrame {
        stats: after.stats,
        src_stats: after.src_stats,
        tpl_src_data_ready: before.tpl_src_data_ready || tpl_lad_mg > 0 && before.valid,
        ..before
    })
}

/// The statistics of the first `n` frames of a window.
pub open spec fn frame_grids(w: Seq<TplWindowFrame>, n: int) -> Seq<Seq<TplStats>> {
    Seq::new(n as nat, |i: int| w[i].stats@)
}

/// What the first `n` frames of a window hold of the search on their sources.
pub open spec fn frame_sources(w: Seq<TplWindowFrame>, n: int) -> Seq<Seq<TplSrcStats>> {
    Seq::new(n as nat, |i: int| w[i].src_stats@)
}

fn share<'a>(r: &'a TplPicMut) -> (p: TplPic<'a>)
    ensures
        shows(p, *r),
{
    TplPic {
        y: r.y.as_slice(),
        y_stride: r.y_stride,
        width: r.width,
        height: r.height,
        max_width: r.width,
        max_height: r.height,
        origin: r.origin,
    }
}

/// Searches frame `i` of a window with its own reconstruction, and the others
/// to read.
fn dispense_one<D: Fn(TplDispenseArgs) -> TplDispensed>(
    w: Ghost<Seq<TplWindowFrame>>,
    recons: &mut Vec<TplPicMut>,
    i: usize,
    frame: TplWindowFrame,
    pocs: &Vec<u64>,
    dispense: &D,
) -> (f: TplWindowFrame)
    requires
        cleared(w@[i as int], frame),
        frame.valid,
        i < old(recons)@.len(),
        pocs@ == Seq::new((i + 1) as nat, |k: int| w@[k].picture_number),
        forall|q: TplDispenseArgs| q.frame.valid ==> #[trigger] call_requires(*dispense, (q,)),
    ensures
        f == (TplWindowFrame { stats: f.stats, src_stats: f.src_stats, ..frame }),
        exists|recon: TplPicMut| #[trigger]
            frame_dispensed(*dispense, w@, old(recons)@, i as int, f.stats@, f.src_stats@, recon) && final(recons)@
                == old(recons)@.update(i as int, recon),
{
    let ghost all = recons@;
    let own: TplPicMut = recons.remove(i);
    let blank: Vec<u8> = Vec::new();
    let mut pics: Vec<TplPic> = Vec::new();
    let mut k: usize = 0;
    while k < i
        invariant
            k <= i <= recons@.len(),
            recons@ == all.remove(i as int),
            i < all.len(),
            pics@.len() == k,
            forall|j: int| 0 <= j < k ==> shows(#[trigger] pics@[j], all[j]),
        decreases i - k,
    {
        assert(recons@[k as int] == all[k as int]);
        pics.push(share(&recons[k]));
        k = k + 1;
    }
    pics.push(
        TplPic {
            y: blank.as_slice(),
            y_stride: 0,
            width: 0,
            height: 0,
            max_width: 0,
            max_height: 0,
            origin: 0,
        },
    );
    while k < recons.len()
        invariant
            i <= k <= recons@.len(),
            recons@ == all.remove(i as int),
            i < all.len(),
            pics@.len() == k + 1,
            pics@[i as int].y@.len() == 0,
            forall|j: int| 0 <= j <= k && j != i ==> shows(#[trigger] pics@[j], all[j]),
        decreases recons@.len() - k,
    {
        assert(recons@[k as int] == all[k + 1]);
        pics.push(share(&recons[k]));
        k = k + 1;
    }
    let (picture_number, aligned_width): (u64, u32) = (frame.picture_number, frame.aligned_width);
    let (mi_rows, mi_cols): (i32, i32) = (frame.mi_rows, frame.mi_cols);
    let (valid, tpl_src_data_ready): (bool, bool) = (frame.valid, frame.tpl_src_data_ready);
    let tpl_data: TplData = frame.tpl_data;
    let q: TplDispenseArgs = TplDispenseArgs {
        frame_idx: i,
        frame,
        recon: own,
        ref_pics: pics,
        poc_map_idx: vstd::slice::slice_to_vec(pocs.as_slice()),
    };
    let ghost asked = q;
    let out: TplDispensed = dispense(q);
    let ghost left = out;
    assert(call_ensures(*dispense, (asked,), left));
    assert(frame_dispensed(*dispense, w@, all, i as int, left.stats@, left.src_stats@, left.recon));
    recons.insert(i, out.recon);
    assert(recons@ =~= all.update(i as int, left.recon));
    TplWindowFrame {
        picture_number,
        aligned_width,
        mi_rows,
        mi_cols,
        tpl_data,
        stats: out.stats,
        src_stats: out.src_stats,
        valid,
        tpl_src_data_ready,
    }
}

/// Searches the frames of a window in order, so that the reconstruction of
/// every reference is there. Gives the number of frames and their picture
/// numbers.
pub fn tpl_mc_flow_forward<D: Fn(TplDispenseArgs) -> TplDispensed>(
    window: &mut Vec<TplWindowFrame>,
    recons: &mut Vec<TplPicMut>,
    tpl_lad_mg: u8,
    dispense: &D,
) -> (r: Vec<u64>)
    requires
        old(recons)@.len() == old(window)@.len(),
        forall|q: TplDispenseArgs| q.frame.valid ==> #[trigger] call_requires(*dispense, (q,)),
    ensures
        r@ == Seq::new(min_int(old(window)@.len() as int, 512) as nat, |i: int| old(window)@[i].picture_number),
        final(window)@.len() == old(window)@.len(),
        final(recons)@.len() == old(recons)@.len(),
        forall|i: int| 0 <= i < r@.len() ==> frame_kept(old(window)@[i], #[trigger] final(window)@[i], tpl_lad_mg),
        forall|i: int| r@.len() <= i < old(window)@.len() ==> #[trigger] final(window)@[i] == old(window)@[i],
        exists|steps: Seq<Seq<TplPicMut>>|
            {
                &&& #[trigger] is_search(
                    *dispense,
                    old(window)@,
                    frame_grids(final(window)@, r@.len() as int),
                    frame_sources(final(window)@, r@.len() as int),
                    steps,
                )
                &&& steps.first() == old(recons)@
                &&& steps.last() == final(recons)@
            },
{
    let ghost before = window@;
    let ghost recons0 = recons@;
    let n: usize = tpl_frames_in_window(window.len());
    let mut pocs: Vec<u64> = Vec::new();
    let ghost mut steps: Seq<Seq<TplPicMut>> = seq![recons@];
    let mut k: usize = 0;
    while k < n
        invariant
            k <= n <= before.len(),
            n == min_int(before.len() as int, 512),
            window@.len() == before.len(),
            recons@.len() == before.len(),
            forall|q: TplDispenseArgs| q.frame.valid ==> #[trigger] call_requires(*dispense, (q,)),
            pocs@ == Seq::new(k as nat, |i: int| before[i].picture_number),
            forall|i: int| 0 <= i < k ==> frame_kept(before[i], #[trigger] window@[i], tpl_lad_mg),
            forall|i: int| k <= i < before.len() ==> #[trigger] window@[i] == before[i],
            is_search(*dispense, before, frame_grids(window@, k as int), frame_sources(window@, k as int), steps),
            steps.first() == recons0,
            steps.last() == recons@,
        decreases n - k,
    {
        assert(window@[k as int] == before[k as int]);
        let ghost was = window@;
        let ghost held = recons@;
        let mut f: TplWindowFrame = window.remove(k);
        pocs.push(f.picture_number);
        assert(pocs@ =~= Seq::new((k + 1) as nat, |i: int| before[i].picture_number));
        tpl_clear_stats(&mut f.stats);
        assert(f.stats@ =~= Seq::new(before[k as int].stats@.len(), |i: int| empty_stats()));
        if f.valid {
            f = dispense_one(Ghost(before), recons, k, f, &pocs, dispense);
            if tpl_lad_mg > 0 {
                f.tpl_src_data_ready = true;
            }
        }
        let ghost searched = f;
        assert(window_step(*dispense, before, k as int, searched.stats@, searched.src_stats@, held, recons@));
        window.insert(k, f);
        proof {
            let g = frame_grids(was, k as int);
            let longer = frame_grids(window@, k + 1);
            let sources = frame_sources(window@, k + 1);
            let more = steps.push(recons@);
            assert forall|i: int| 0 <= i < k implies #[trigger] window@[i] == was[i] by {
            }
            assert forall|i: int| 0 <= i < longer.len() implies window_step(
                *dispense,
                before,
                i,
                #[trigger] longer[i],
                sources[i],
                more[i],
                more[i + 1],
            ) by {
                if i < k {
                    assert(window@[i] == was[i]);
                    assert(window_step(
                        *dispense,
                        before,
                        i,
                        g[i],
                        frame_sources(was, k as int)[i],
                        steps[i],
                        steps[i + 1],
                    ));
                } else {
                    assert(window@[i] == searched);
                }
            }
            steps = more;
        }
        k = k + 1;
    }
    assert(is_search(*dispense, before, frame_grids(window@, n as int), frame_sources(window@, n as int), steps));
    pocs
}

/// The geometries of the first `n` frames of a window.
pub open spec fn frame_geos(w: Seq<TplWindowFrame>, n: int) -> Seq<PicGeo> {
    Seq::new(
        n as nat,
        |i: int|
            PicGeo {
                number: w[i].picture_number,
                width: w[i].aligned_width as int,
                rows: w[i].mi_rows as int,
                cols: w[i].mi_cols as int,
            },
    )
}

/// Which of the first `n` frames of a window are valid.
pub open spec fn frames_valid(w: Seq<TplWindowFrame>, n: int) -> Seq<bool> {
    Seq::new(n as nat, |i: int| w[i].valid)
}

/// The grids of a window can be passed on.
pub open spec fn flow_fits<F: Fn(i64, i64, i64, i64) -> i64>(
    w: Seq<TplWindowFrame>,
    g: Seq<Seq<TplStats>>,
    synth_blk_size: u8,
    compute_rate: bool,
    cost: F,
) -> bool {
    let n = g.len() as int;
    let gs = frame_geos(w, n);
    let m = mi_side(synth_blk_size);
    let bsize = sweep_block(synth_blk_size);
    &&& window_ok(g, gs, m)
    &&& forall|i: int|
        0 <= i < n && #[trigger] frames_valid(w, n)[i] ==> holds_blocks(gs[i], m, bsize, g[i].len() as int)
    &&& window_fits(g, gs, m, frames_valid(w, n), bsize, carried_by(cost, compute_rate, m), n, 0)
}

/// The grids of a window after every valid frame has passed on what it owes.
pub open spec fn flowed<F: Fn(i64, i64, i64, i64) -> i64>(
    w: Seq<TplWindowFrame>,
    g: Seq<Seq<TplStats>>,
    synth_blk_size: u8,
    compute_rate: bool,
    cost: F,
) -> Seq<Seq<TplStats>> {
    let n = g.len() as int;
    let m = mi_side(synth_blk_size);
    window_walk(
        g,
        frame_geos(w, n),
        m,
        frames_valid(w, n),
        sweep_block(synth_blk_size),
        carried_by(cost, compute_rate, m),
        n,
        0,
    )
}

/// `cost` has returned the rates that the frames of a window pass on.
pub open spec fn flow_priced<F: Fn(i64, i64, i64, i64) -> i64>(
    w: Seq<TplWindowFrame>,
    g: Seq<Seq<TplStats>>,
    synth_blk_size: u8,
    cost: F,
) -> bool {
    let n = g.len() as int;
    window_priced(
        g,
        frame_geos(w, n),
        mi_side(synth_blk_size),
        frames_valid(w, n),
        sweep_block(synth_blk_size),
        cost,
        n,
        0,
    )
}

/// A frame after the look-ahead, with its statistics.
pub open spec fn frame_done(
    before: TplWindowFrame,
    after: TplWindowFrame,
    tpl_lad_mg: u8,
    grid: Seq<TplStats>,
    src_stats: Seq<TplSrcStats>,
) -> bool {
    &&& after.picture_number == before.picture_number
    &&& after.aligned_width == before.aligned_width
    &&& after.mi_rows == before.mi_rows
    &&& after.mi_cols == before.mi_cols
    &&& after.valid == before.valid
    &&& after.tpl_src_data_ready == (before.tpl_src_data_ready || tpl_lad_mg > 0 && before.valid)
    &&& after.tpl_data == before.tpl_data
    &&& after.stats@ == grid
    &&& after.src_stats@ == src_stats
}

/// The frame with other statistics.
fn with_stats(f: TplWindowFrame, stats: Vec<TplStats>) -> (r: TplWindowFrame)
    ensures
        r == (TplWindowFrame { stats, ..f }),
{
    TplWindowFrame {
        picture_number: f.picture_number,
        aligned_width: f.aligned_width,
        mi_rows: f.mi_rows,
        mi_cols: f.mi_cols,
        tpl_data: f.tpl_data,
        stats,
        src_stats: f.src_stats,
        valid: f.valid,
        tpl_src_data_ready: f.tpl_src_data_ready,
    }
}

/// Searches a window of frames forward with `dispense`, and then passes on
/// what each valid frame owes to its references, the last frame first. Gives
/// the number of frames that take part.
pub fn tpl_mc_flow<D: Fn(TplDispenseArgs) -> TplDispensed, F: Fn(i64, i64, i64, i64) -> i64>(
    window: &mut Vec<TplWindowFrame>,
    recons: &mut Vec<TplPicMut>,
    synth_blk_size: u8,
    compute_rate: bool,
    tpl_lad_mg: u8,
    dispense: &D,
    cost: &F,
) -> (frames: usize)
    requires
        compute_rate ==> is_function(*cost),
        old(recons)@.len() == old(window)@.len(),
        forall|q: TplDispenseArgs| q.frame.valid ==> #[trigger] call_requires(*dispense, (q,)),
        forall|g: Seq<Seq<TplStats>>| #[trigger]
            may_leave(*dispense, old(window)@, old(recons)@, g) ==> flow_fits(
                old(window)@,
                g,
                synth_blk_size,
                compute_rate,
                *cost,
            ),
    ensures
        frames == min_int(old(window)@.len() as int, 512),
        final(window)@.len() == old(window)@.len(),
        final(recons)@.len() == old(recons)@.len(),
        exists|g: Seq<Seq<TplStats>>, src: Seq<Seq<TplSrcStats>>, steps: Seq<Seq<TplPicMut>>|
            {
                &&& #[trigger] is_search(*dispense, old(window)@, g, src, steps)
                &&& g.len() == frames
                &&& steps.first() == old(recons)@
                &&& steps.last() == final(recons)@
                &&& forall|i: int|
                    0 <= i < frames ==> frame_done(
                        old(window)@[i],
                        #[trigger] final(window)@[i],
                        tpl_lad_mg,
                        flowed(old(window)@, g, synth_blk_size, compute_rate, *cost)[i],
                        src[i],
                    )
                &&& compute_rate ==> flow_priced(old(window)@, g, synth_blk_size, *cost)
            },
        forall|i: int| frames <= i < old(window)@.len() ==> #[trigger] final(window)@[i] == old(window)@[i],
{
    let ghost before = window@;
    let ghost recons0 = recons@;
    let n: usize = tpl_mc_flow_forward(window, recons, tpl_lad_mg, dispense).len();
    let ghost w1 = window@;
    let ghost g = frame_grids(w1, n as int);
    let ghost src = frame_sources(w1, n as int);
    let ghost steps = choose|steps: Seq<Seq<TplPicMut>>|
        {
            &&& #[trigger] is_search(*dispense, before, g, src, steps)
            &&& steps.first() == recons0
            &&& steps.last() == recons@
        };
    assert(may_leave(*dispense, before, recons0, g));
    let ghost gs = frame_geos(before, n as int);
    let ghost m = mi_side(synth_blk_size);
    let mut pics: Vec<TplSynthPic> = Vec::new();
    let mut valid: Vec<bool> = Vec::new();
    let mut k: usize = 0;
    while k < n
        invariant
            k <= n <= before.len(),
            n == g.len(),
            w1.len() == before.len(),
            window@.len() == before.len(),
            g == frame_grids(w1, n as int),
            gs == frame_geos(before, n as int),
            forall|i: int| 0 <= i < n ==> frame_kept(before[i], #[trigger] w1[i], tpl_lad_mg),
            forall|i: int|
                0 <= i < k ==> (#[trigger] window@[i]) == (TplWindowFrame { stats: window@[i].stats, ..w1[i] }),
            forall|i: int| k <= i < before.len() ==> #[trigger] window@[i] == w1[i],
            pics@.len() == k,
            valid@.len() == k,
            forall|i: int| 0 <= i < k ==> (#[trigger] pics@[i]).geo() == gs[i] && pics@[i].stats@ == g[i],
            forall|i: int| 0 <= i < k ==> #[trigger] valid@[i] == before[i].valid,
        decreases n - k,
    {
        assert(window@[k as int] == w1[k as int]);
        assert(frame_kept(before[k as int], w1[k as int], tpl_lad_mg));
        let mut f: TplWindowFrame = window.remove(k);
        let mut stats: Vec<TplStats> = Vec::new();
        stats.append(&mut f.stats);
        valid.push(f.valid);
        pics.push(
            TplSynthPic {
                picture_number: f.picture_number,
                aligned_width: f.aligned_width,
                mi_rows: f.mi_rows,
                mi_cols: f.mi_cols,
                stats,
            },
        );
        window.insert(k, f);
        k = k + 1;
    }
    proof {
        assert(geos(pics@) =~= gs);
        assert(grids(pics@) =~= g);
        assert(valid@ =~= frames_valid(before, n as int));
        assert forall|i: int| 0 <= i < valid@.len() && #[trigger] valid@[i] implies holds_blocks(
            pics@[i].geo(),
            m,
            sweep_block(synth_blk_size),
            pics@[i].stats@.len() as int,
        ) by {
            assert(frames_valid(before, n as int)[i]);
        }
    }
    tpl_mc_flow_synthesis(&mut pics, &valid, synth_blk_size, compute_rate, cost);
    let ghost done = flowed(before, g, synth_blk_size, compute_rate, *cost);
    let ghost w2 = window@;
    assert(grids(pics@) == done);
    assert(geos(pics@).len() == n);
    while k > 0
        invariant
            k <= n <= before.len(),
            w1.len() == before.len(),
            w2.len() == before.len(),
            window@.len() == before.len(),
            pics@.len() == k,
            done.len() == n,
            forall|i: int| 0 <= i < k ==> (#[trigger] pics@[i]).stats@ == done[i],
            forall|i: int| 0 <= i < n ==> frame_kept(before[i], #[trigger] w1[i], tpl_lad_mg),
            forall|i: int| 0 <= i < n ==> (#[trigger] w2[i]) == (TplWindowFrame { stats: w2[i].stats, ..w1[i] }),
            forall|i: int| 0 <= i < k ==> #[trigger] window@[i] == w2[i],
            src == frame_sources(w1, n as int),
            forall|i: int| k <= i < n ==> frame_done(before[i], #[trigger] window@[i], tpl_lad_mg, done[i], src[i]),
            forall|i: int| n <= i < before.len() ==> #[trigger] window@[i] == before[i],
        decreases k,
    {
        k = k - 1;
        assert(window@[k as int] == w2[k as int]);
        assert(frame_kept(before[k as int], w1[k as int], tpl_lad_mg));
        assert(pics@[k as int].stats@ == done[k as int]);
        let ghost was = window@;
        let f: TplWindowFrame = window.remove(k);
        match pics.pop() {
            Some(pic) => {
                let whole: TplWindowFrame = with_stats(f, pic.stats);
                assert(frame_done(before[k as int], whole, tpl_lad_mg, done[k as int], src[k as int]));
                window.insert(k, whole);
                proof {
                    assert forall|i: int| k <= i < n implies frame_done(
                        before[i],
                        #[trigger] window@[i],
                        tpl_lad_mg,
                        done[i],
                        src[i],
                    ) by {
                        if i > k {
                            assert(window@[i] == was[i]);
                        }
                    }
                    assert forall|i: int| n <= i < before.len() implies #[trigger] window@[i] == before[i] by {
                        assert(window@[i] == was[i]);
                    }
                }
            },
            None => {
                window.insert(k, f);
            },
        }
    }
    assert(is_search(*dispense, before, g, src, steps));
    n
}

} // verus!
