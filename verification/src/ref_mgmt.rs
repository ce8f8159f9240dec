//! Long-term references that the application manages: it keeps a coded
//! picture under a name, releases it, and lets a later picture be predicted
//! from it alone.

use vstd::prelude::*;

pub mod heapless_diags;
pub mod laws;

use crate::picstruct::{
    Av1RpsNode, PicDecisionCtx, PicId, PicParams, PredStructure, RefMgmtEvents, SeqPicParams, LAY1_OFF,
     LAY2_OFF, REF_FRAMES,
};
use crate::ref_mgmt::heapless_diags::Diags;
use crate::slots::{holds, in_set, lemma_extremes, lemma_same_slots, lemma_set_of, set_of, with, without};

verus! {

/// Why something that was asked for was not done, or what came of it.
#[derive(Debug, Clone, Copy, PartialEq, Eq, Structural)]
pub enum RefMgmtDiag {
    /// An overlay cannot be managed.
    EventsOnOverlay,
    /// Only a base-layer picture can be managed.
    EventsOnNonBase { temporal_layer: u8 },
    /// One name in two requests.
    DuplicateIdAcrossEvents,
    /// No picture is kept under the name to release.
    ClearIdNotFound(PicId),
    /// A picture is already kept under the name.
    StoreIdAlreadyHeld(PicId),
    /// As many pictures are kept as may be.
    StoreCapReached { held: u8, cap: u8 },
    /// No slot is free.
    StorePoolFull { storeable_mask: u8 },
    /// No picture is kept under the name to predict from.
    UseIdNotFound(PicId),
    /// The picture is written to no slot, since every one it was meant for is
    /// kept.
    RefreshMaskCollapsed { wanted: u8, preserved: u8 },
}

/// What came of the requests.
#[derive(Debug, Clone, Copy, PartialEq, Eq)]
pub struct RefMgmtReport {
    /// Slot the picture is kept in.
    pub new_store_slot: Option<u8>,
    /// The picture is predicted from a kept one alone.
    pub use_applied: bool,
    pub diagnostics: Diags,
}

impl Default for RefMgmtReport {
    fn default() -> (r: Self)
        ensures
            r.new_store_slot is None,
            !r.use_applied,
            r.diagnostics.wf(),
            r.diagnostics@ == Seq::<RefMgmtDiag>::empty(),
    {
        RefMgmtReport { new_store_slot: None, use_applied: false, diagnostics: Diags::default() }
    }
}

/// Releases every kept picture.
pub fn reset_state(ctx: &mut PicDecisionCtx)
    ensures
        forall|i: int| 0 <= i < 8 ==> (#[trigger] final(ctx).pic_id_per_dpb_slot@[i]) is None,
        *final(ctx) == (PicDecisionCtx { pic_id_per_dpb_slot: final(ctx).pic_id_per_dpb_slot, ..*old(ctx) }),
{
    ctx.pic_id_per_dpb_slot = [None; 8];
}

/// The slots that keep a picture.
pub open spec fn stored_slots(ids: Seq<Option<PicId>>) -> u8 {
    set_of(|i: int| ids[i] is Some)
}

/// The slots that keep a picture.
pub fn stored_mask(ctx: &PicDecisionCtx) -> (m: u8)
    ensures
        forall|i: int| 0 <= i < 8 ==> #[trigger] in_set(m, i) == (ctx.pic_id_per_dpb_slot@[i] is Some),
        m == stored_slots(ctx.pic_id_per_dpb_slot@),
{
    let mut m: u8 = 0;
    let mut i: usize = 0;
    proof {
        lemma_extremes();
    }
    while i < REF_FRAMES
        invariant
            i <= 8,
            forall|k: int|
                0 <= k < 8 ==> #[trigger] in_set(m, k) == (k < i && ctx.pic_id_per_dpb_slot@[k] is Some),
        decreases 8 - i,
    {
        if ctx.pic_id_per_dpb_slot[i].is_some() {
            m = with(m, i);
        }
        i = i + 1;
    }
    proof {
        let ids = ctx.pic_id_per_dpb_slot@;
        lemma_set_of(m, |i: int| ids[i] is Some);
    }
    m
}

/// First slot from `i` on that keeps a picture under a name.
pub open spec fn slot_from(ids: Seq<Option<PicId>>, pic_id: PicId, i: int) -> Option<u8>
    decreases 8 - i,
{
    if i >= 8 {
        None
    } else if ids[i] == Some(pic_id) {
        Some(i as u8)
    } else {
        slot_from(ids, pic_id, i + 1)
    }
}

/// First slot that keeps a picture under a name.
pub open spec fn slot_of(ids: Seq<Option<PicId>>, pic_id: PicId) -> Option<u8> {
    slot_from(ids, pic_id, 0)
}

/// A slot that keeps a picture under a name is found if there is one.
pub proof fn lemma_slot_found(ids: Seq<Option<PicId>>, pic_id: PicId, i: int)
    requires
        0 <= i <= 8,
    ensures
        slot_from(ids, pic_id, i) is Some ==> {
            let s = slot_from(ids, pic_id, i)->0;
            i <= s < 8 && ids[s as int] == Some(pic_id)
        },
        slot_from(ids, pic_id, i) is None ==> forall|k: int| i <= k < 8 ==> #[trigger] ids[k] != Some(pic_id),
    decreases 8 - i,
{
    if i < 8 && ids[i] != Some(pic_id) {
        lemma_slot_found(ids, pic_id, i + 1);
    }
}

/// The first slot that keeps a picture under a name.
pub fn find_slot(ctx: &PicDecisionCtx, pic_id: PicId) -> (r: Option<u8>)
    ensures
        r == slot_of(ctx.pic_id_per_dpb_slot@, pic_id),
        r is Some ==> r->0 < 8 && ctx.pic_id_per_dpb_slot@[r->0 as int] == Some(pic_id),
        r is None ==> forall|k: int| 0 <= k < 8 ==> #[trigger] ctx.pic_id_per_dpb_slot@[k] != Some(pic_id),
{
    let mut i: usize = 0;
    proof {
        lemma_slot_found(ctx.pic_id_per_dpb_slot@, pic_id, 0);
    }
    while i < REF_FRAMES
        invariant
            i <= 8,
            slot_of(ctx.pic_id_per_dpb_slot@, pic_id) == slot_from(ctx.pic_id_per_dpb_slot@, pic_id, i as int),
        decreases 8 - i,
    {
        if let Some(id) = ctx.pic_id_per_dpb_slot[i] {
            if id == pic_id {
                return Some(i as u8);
            }
        }
        i = i + 1;
    }
    None
}

/// Slot `i` is one that some low-delay picture is written to alone.
pub open spec fn written_alone(seq: SeqPicParams, i: int) -> bool {
    let hier = seq.hierarchical_levels;
    let reduce = seq.mrp_ctrls.ld_reduce_ref_buffs;
    ||| reduce == 0 && i < 3
    ||| hier >= 1 && reduce == 0 && (i == 3 || i == 4)
    ||| hier >= 1 && reduce == 1 && i == 3
    ||| hier >= 1 && reduce == 2 && i == 1
    ||| hier >= 2 && reduce == 0 && i == 5
}

/// The slots that some low-delay picture is written to alone. Keeping a
/// picture there would leave such a picture without a slot.
pub fn exclusive_write_slots_mask_ld_cbr(seq: &SeqPicParams) -> (mask: u8)
    ensures
        forall|i: int| 0 <= i < 8 ==> #[trigger] in_set(mask, i) == written_alone(*seq, i),
{
    let mut mask: u8 = 0;
    proof {
        lemma_extremes();
    }
    let hier: u8 = seq.hierarchical_levels;
    let ld_reduce: u8 = seq.mrp_ctrls.ld_reduce_ref_buffs;
    if ld_reduce == 0 {
        mask = with(with(with(mask, 0), 1), 2);
    }
    if hier >= 1 {
        if ld_reduce == 0 {
            mask = with(with(mask, LAY1_OFF as usize), LAY1_OFF as usize + 1);
        } else if ld_reduce == 1 {
            mask = with(mask, LAY1_OFF as usize);
        } else if ld_reduce == 2 {
            mask = with(mask, 1);
        }
    }
    if hier >= 2 && ld_reduce == 0 {
        mask = with(mask, LAY2_OFF as usize);
    }
    mask
}

/// A picture may be kept in slot `i`.
pub open spec fn storeable(seq: SeqPicParams, i: int) -> bool {
    if seq.rtc && seq.hierarchical_levels == 0 {
        4 <= i
    } else if seq.pred_structure is LowDelay && seq.hierarchical_levels >= 1 {
        !written_alone(seq, i)
    } else {
        true
    }
}

/// The slots a picture may be kept in.
pub fn storeable_slots_mask(seq: &SeqPicParams) -> (mask: u8)
    ensures
        forall|i: int| 0 <= i < 8 ==> #[trigger] in_set(mask, i) == storeable(*seq, i),
{
    proof {
        lemma_extremes();
    }
    if seq.rtc && seq.hierarchical_levels == 0 {
        let mask: u8 = with(with(with(with(0, 4), 5), 6), 7);
        return mask;
    }
    if seq.pred_structure == PredStructure::LowDelay && seq.hierarchical_levels >= 1 {
        return without(0xff, exclusive_write_slots_mask_ld_cbr(seq));
    }
    0xff
}

/// Two requests carry the same name.
pub open spec fn clashes(a: Option<PicId>, b: Option<PicId>) -> bool {
    a is Some && a == b
}

/// Why the requests of a picture are all refused, if they are.
pub open spec fn refusal(pic: PicParams) -> Option<RefMgmtDiag> {
    let e = pic.ref_mgmt;
    if !e.asks() {
        None
    } else if pic.is_overlay {
        Some(RefMgmtDiag::EventsOnOverlay)
    } else if pic.temporal_layer_index != 0 {
        Some(RefMgmtDiag::EventsOnNonBase { temporal_layer: pic.temporal_layer_index })
    } else if clashes(e.store_id, e.clear_id) || clashes(e.store_id, e.use_id) || clashes(e.clear_id, e.use_id) {
        Some(RefMgmtDiag::DuplicateIdAcrossEvents)
    } else {
        None
    }
}

/// The requests that are considered.
pub open spec fn admitted(pic: PicParams) -> RefMgmtEvents {
    if refusal(pic) is Some {
        RefMgmtEvents::nothing()
    } else {
        pic.ref_mgmt
    }
}

/// The names once a picture has been released.
pub open spec fn cleared(ids: Seq<Option<PicId>>, clear_id: Option<PicId>) -> Seq<Option<PicId>> {
    if clear_id is Some && slot_of(ids, clear_id->0) is Some {
        ids.update((slot_of(ids, clear_id->0)->0) as int, None)
    } else {
        ids
    }
}

/// Number of the first `n` slots that keep a picture.
pub open spec fn held_in(ids: Seq<Option<PicId>>, n: int) -> int
    decreases n,
{
    if n <= 0 {
        0
    } else {
        held_in(ids, n - 1) + if ids[n - 1] is Some {
            1int
        } else {
            0
        }
    }
}

/// First free slot from `i` on that a picture may be kept in.
pub open spec fn free_from(seq: SeqPicParams, ids: Seq<Option<PicId>>, i: int) -> Option<u8>
    decreases 8 - i,
{
    if i >= 8 {
        None
    } else if storeable(seq, i) && ids[i] is None {
        Some(i as u8)
    } else {
        free_from(seq, ids, i + 1)
    }
}

/// The slot a picture is kept in, or why it is not kept.
pub open spec fn store_outcome(seq: SeqPicParams, ids: Seq<Option<PicId>>, pid: PicId) -> Result<u8, RefMgmtDiag> {
    if slot_of(ids, pid) is Some {
        Err(RefMgmtDiag::StoreIdAlreadyHeld(pid))
    } else if held_in(ids, 8) >= seq.max_managed_refs {
        Err(RefMgmtDiag::StoreCapReached { held: held_in(ids, 8) as u8, cap: seq.max_managed_refs })
    } else if free_from(seq, ids, 0) is None {
        Err(RefMgmtDiag::StorePoolFull { storeable_mask: set_of(|i: int| storeable(seq, i)) })
    } else {
        Ok(free_from(seq, ids, 0)->0)
    }
}

/// What the requests of a picture lead to.
pub struct Outcome {
    /// The requests that are considered.
    pub events: RefMgmtEvents,
    /// The names after releasing.
    pub released: Seq<Option<PicId>>,
    /// The slot the picture is kept in.
    pub kept: Option<u8>,
    /// The names at the end.
    pub ids: Seq<Option<PicId>>,
    /// The slot the picture is predicted from alone.
    pub anchor: Option<u8>,
}

/// What the requests of a picture lead to.
pub open spec fn outcome_of(pic: PicParams, seq: SeqPicParams, ids0: Seq<Option<PicId>>) -> Outcome {
    let events = admitted(pic);
    let released = cleared(ids0, events.clear_id);
    let kept = if events.store_id is Some && store_outcome(seq, released, events.store_id->0) is Ok {
        Some(store_outcome(seq, released, events.store_id->0)->Ok_0)
    } else {
        None
    };
    let ids = if kept is Some {
        released.update((kept->0) as int, events.store_id)
    } else {
        released
    };
    let anchor = if events.use_id is Some {
        slot_of(ids, events.use_id->0)
    } else {
        None
    };
    Outcome { events, released, kept, ids, anchor }
}

impl Outcome {
    /// Slot `i` keeps an earlier picture.
    pub open spec fn preserves(self, i: int) -> bool {
        self.ids[i] is Some && self.kept != Some(i as u8)
    }

    /// The picture is meant for slot `i`.
    pub open spec fn wants(self, mask0: u8, i: int) -> bool {
        in_set(mask0, i) || self.kept == Some(i as u8)
    }

    /// The picture is written to slot `i`. Slots that keep an earlier picture
    /// are never written; a picture that is predicted from a kept one alone
    /// is written to all others.
    pub open spec fn writes(self, mask0: u8, i: int) -> bool {
        (self.anchor is Some || self.wants(mask0, i)) && !self.preserves(i)
    }

    /// The picture would have been written somewhere, and is not, before the
    /// prediction from a kept picture widens its slots.
    pub open spec fn collapses(self, pic: PicParams) -> bool {
        let mask0 = pic.rps.refresh_frame_mask;
        &&& !pic.is_overlay
        &&& exists|i: int| 0 <= i < 8 && #[trigger] self.wants(mask0, i)
        &&& forall|i: int| 0 <= i < 8 ==> !(#[trigger] self.wants(mask0, i) && !self.preserves(i))
    }

    /// What releasing reports.
    pub open spec fn clear_note(self, ids0: Seq<Option<PicId>>) -> Option<RefMgmtDiag> {
        if self.events.clear_id is Some && slot_of(ids0, self.events.clear_id->0) is None {
            Some(RefMgmtDiag::ClearIdNotFound(self.events.clear_id->0))
        } else {
            None
        }
    }

    /// What keeping reports.
    pub open spec fn store_note(self, seq: SeqPicParams) -> Option<RefMgmtDiag> {
        if self.events.store_id is Some && store_outcome(seq, self.released, self.events.store_id->0) is Err {
            Some(store_outcome(seq, self.released, self.events.store_id->0)->Err_0)
        } else {
            None
        }
    }

    /// What taking slots out reports.
    pub open spec fn collapse_note(self, pic: PicParams) -> Option<RefMgmtDiag> {
        if self.collapses(pic) {
            Some(
                RefMgmtDiag::RefreshMaskCollapsed {
                    wanted: set_of(|i: int| self.wants(pic.rps.refresh_frame_mask, i)),
                    preserved: set_of(|i: int| self.preserves(i)),
                },
            )
        } else {
            None
        }
    }

    /// What predicting from a kept picture reports.
    pub open spec fn use_note(self) -> Option<RefMgmtDiag> {
        if self.events.use_id is Some && self.anchor is None {
            Some(RefMgmtDiag::UseIdNotFound(self.events.use_id->0))
        } else {
            None
        }
    }

    /// The diagnostics, in order.
    pub open spec fn diagnostics(self, pic: PicParams, seq: SeqPicParams, ids0: Seq<Option<PicId>>) -> Seq<RefMgmtDiag> {
        Seq::<RefMgmtDiag>::empty() + one(refusal(pic)) + one(self.clear_note(ids0)) + one(self.store_note(seq)) + one(
            self.collapse_note(pic),
        ) + one(self.use_note())
    }
}

/// At most one diagnostic.
pub open spec fn one(d: Option<RefMgmtDiag>) -> Seq<RefMgmtDiag> {
    match d {
        Some(x) => seq![x],
        None => Seq::empty(),
    }
}

fn note(diagnostics: &mut Diags, d: Option<RefMgmtDiag>)
    requires
        old(diagnostics).wf(),
        old(diagnostics)@.len() < 8,
    ensures
        final(diagnostics).wf(),
        final(diagnostics)@ == old(diagnostics)@ + one(d),
        final(diagnostics)@.len() <= old(diagnostics)@.len() + 1,
{
    match d {
        Some(x) => {
            diagnostics.push(x);
            assert(diagnostics@ =~= old(diagnostics)@ + one(d));
        },
        None => {
            assert(diagnostics@ =~= old(diagnostics)@ + one(d));
        },
    }
}

fn clash(a: Option<PicId>, b: Option<PicId>) -> (r: bool)
    ensures
        r == clashes(a, b),
{
    match (a, b) {
        (Some(x), Some(y)) => x == y,
        _ => false,
    }
}

fn refuse(pic: &PicParams) -> (r: Option<RefMgmtDiag>)
    ensures
        r == refusal(*pic),
{
    if !pic.ref_mgmt.any() {
        return None;
    }
    if pic.is_overlay {
        return Some(RefMgmtDiag::EventsOnOverlay);
    }
    if pic.temporal_layer_index != 0 {
        return Some(RefMgmtDiag::EventsOnNonBase { temporal_layer: pic.temporal_layer_index });
    }
    let e: RefMgmtEvents = pic.ref_mgmt;
    if clash(e.store_id, e.clear_id) || clash(e.store_id, e.use_id) || clash(e.clear_id, e.use_id) {
        return Some(RefMgmtDiag::DuplicateIdAcrossEvents);
    }
    None
}

fn apply_clear(pid: PicId, ctx: &mut PicDecisionCtx) -> (d: Option<RefMgmtDiag>)
    ensures
        final(ctx).pic_id_per_dpb_slot@ == cleared(old(ctx).pic_id_per_dpb_slot@, Some(pid)),
        *final(ctx) == (PicDecisionCtx { pic_id_per_dpb_slot: final(ctx).pic_id_per_dpb_slot, ..*old(ctx) }),
        d == if slot_of(old(ctx).pic_id_per_dpb_slot@, pid) is None {
            Some(RefMgmtDiag::ClearIdNotFound(pid))
        } else {
            None
        },
{
    match find_slot(ctx, pid) {
        Some(slot) => {
            ctx.pic_id_per_dpb_slot[slot as usize] = None;
            None
        },
        None => Some(RefMgmtDiag::ClearIdNotFound(pid)),
    }
}

fn count_held(ctx: &PicDecisionCtx) -> (n: u8)
    ensures
        n == held_in(ctx.pic_id_per_dpb_slot@, 8),
        n <= 8,
{
    let mut n: u8 = 0;
    let mut i: usize = 0;
    while i < REF_FRAMES
        invariant
            i <= 8,
            n <= i,
            n == held_in(ctx.pic_id_per_dpb_slot@, i as int),
        decreases 8 - i,
    {
        if ctx.pic_id_per_dpb_slot[i].is_some() {
            n = n + 1;
        }
        i = i + 1;
    }
    n
}

fn find_free(ctx: &PicDecisionCtx, seq: &SeqPicParams, storeable_mask: u8) -> (r: Option<u8>)
    requires
        forall|i: int| 0 <= i < 8 ==> #[trigger] in_set(storeable_mask, i) == storeable(*seq, i),
    ensures
        r == free_from(*seq, ctx.pic_id_per_dpb_slot@, 0),
        r is Some ==> r->0 < 8,
{
    let mut i: usize = 0;
    while i < REF_FRAMES
        invariant
            i <= 8,
            forall|i: int| 0 <= i < 8 ==> #[trigger] in_set(storeable_mask, i) == storeable(*seq, i),
            free_from(*seq, ctx.pic_id_per_dpb_slot@, 0) == free_from(*seq, ctx.pic_id_per_dpb_slot@, i as int),
        decreases 8 - i,
    {
        if holds(storeable_mask, i) && ctx.pic_id_per_dpb_slot[i].is_none() {
            return Some(i as u8);
        }
        i = i + 1;
    }
    None
}

fn apply_store(pid: PicId, seq: &SeqPicParams, ctx: &mut PicDecisionCtx) -> (r: Result<u8, RefMgmtDiag>)
    ensures
        r == store_outcome(*seq, old(ctx).pic_id_per_dpb_slot@, pid),
        r is Ok ==> r->Ok_0 < 8,
        final(ctx).pic_id_per_dpb_slot@ == if r is Ok {
            old(ctx).pic_id_per_dpb_slot@.update(r->Ok_0 as int, Some(pid))
        } else {
            old(ctx).pic_id_per_dpb_slot@
        },
        *final(ctx) == (PicDecisionCtx { pic_id_per_dpb_slot: final(ctx).pic_id_per_dpb_slot, ..*old(ctx) }),
{
    if find_slot(ctx, pid).is_some() {
        return Err(RefMgmtDiag::StoreIdAlreadyHeld(pid));
    }
    let held: u8 = count_held(ctx);
    if held >= seq.max_managed_refs {
        return Err(RefMgmtDiag::StoreCapReached { held, cap: seq.max_managed_refs });
    }
    let storeable_mask: u8 = storeable_slots_mask(seq);
    match find_free(ctx, seq, storeable_mask) {
        None => {
            proof {
                lemma_set_of(storeable_mask, |i: int| storeable(*seq, i));
            }
            Err(RefMgmtDiag::StorePoolFull { storeable_mask })
        },
        Some(slot) => {
            ctx.pic_id_per_dpb_slot[slot as usize] = Some(pid);
            Ok(slot)
        },
    }
}

/// Does what the application asks for with a picture: releases first, so that
/// a picture can be kept in the slot that came free, keeps the picture, takes
/// the slots of kept pictures out of those it is written to, and finally
/// predicts it from a kept picture alone. The third step is taken whether or
/// not anything was asked for. Requests that have been dealt with, or that
/// were refused, are taken back.
pub fn apply_events(pic: &mut PicParams, seq: &SeqPicParams, ctx: &mut PicDecisionCtx) -> (report: RefMgmtReport)
    ensures
        ({
            let o = outcome_of(*old(pic), *seq, old(ctx).pic_id_per_dpb_slot@);
            let mask0 = old(pic).rps.refresh_frame_mask;
            &&& report.new_store_slot == o.kept
            &&& report.use_applied == (o.anchor is Some)
            &&& report.diagnostics.wf()
            &&& report.diagnostics@ == o.diagnostics(*old(pic), *seq, old(ctx).pic_id_per_dpb_slot@)
            &&& final(ctx).pic_id_per_dpb_slot@ == o.ids
            &&& final(pic).ref_mgmt == (RefMgmtEvents {
                store_id: if o.kept is Some {
                    o.events.store_id
                } else {
                    None
                },
                clear_id: None,
                use_id: o.events.use_id,
            })
            &&& forall|i: int| 0 <= i < 8 ==> #[trigger] in_set(final(pic).rps.refresh_frame_mask, i) == o.writes(mask0, i)
            &&& o.anchor is Some ==> {
                let slot = o.anchor->0;
                &&& final(pic).ref_list0_count == 1
                &&& final(pic).ref_list1_count == 0
                &&& forall|k: int| 0 <= k < 7 ==> #[trigger] final(pic).rps.ref_dpb_index@[k] == slot
                &&& forall|k: int|
                    0 <= k < 7 ==> #[trigger] final(pic).rps.ref_poc_array@[k] == old(ctx).dpb@[slot as int].picture_number
            }
            &&& o.anchor is None ==> {
                &&& final(pic).ref_list0_count == old(pic).ref_list0_count
                &&& final(pic).ref_list1_count == old(pic).ref_list1_count
                &&& final(pic).rps.ref_dpb_index == old(pic).rps.ref_dpb_index
                &&& final(pic).rps.ref_poc_array == old(pic).rps.ref_poc_array
            }
        }),
        *final(ctx) == (PicDecisionCtx { pic_id_per_dpb_slot: final(ctx).pic_id_per_dpb_slot, ..*old(ctx) }),
        *final(pic) == (PicParams {
            ref_mgmt: final(pic).ref_mgmt,
            rps: final(pic).rps,
            ref_list0_count: final(pic).ref_list0_count,
            ref_list1_count: final(pic).ref_list1_count,
            ..*old(pic)
        }),
{
    let mut report: RefMgmtReport = RefMgmtReport::default();
    let ghost pic0 = *pic;
    let ghost ids0 = ctx.pic_id_per_dpb_slot@;
    settle(pic, seq, ctx, &mut report);
    write_back(pic, ctx, &mut report, Ghost(pic0), Ghost(*seq), Ghost(ids0));
    report
}

fn settle(pic: &mut PicParams, seq: &SeqPicParams, ctx: &mut PicDecisionCtx, report: &mut RefMgmtReport)
    requires
        old(report).new_store_slot is None,
        !old(report).use_applied,
        old(report).diagnostics.wf(),
        old(report).diagnostics@ == Seq::<RefMgmtDiag>::empty(),
    ensures
        ({
            let o = outcome_of(*old(pic), *seq, old(ctx).pic_id_per_dpb_slot@);
            &&& final(report).new_store_slot == o.kept
            &&& o.kept is Some ==> o.kept->0 < 8
            &&& !final(report).use_applied
            &&& final(report).diagnostics.wf()
            &&& final(report).diagnostics@ == Seq::<RefMgmtDiag>::empty() + one(refusal(*old(pic))) + one(
                o.clear_note(old(ctx).pic_id_per_dpb_slot@),
            ) + one(o.store_note(*seq))
            &&& final(report).diagnostics@.len() <= 3
            &&& final(ctx).pic_id_per_dpb_slot@ == o.ids
            &&& final(pic).ref_mgmt == (RefMgmtEvents {
                store_id: if o.kept is Some {
                    o.events.store_id
                } else {
                    None
                },
                clear_id: None,
                use_id: o.events.use_id,
            })
            &&& forall|i: int|
                0 <= i < 8 ==> #[trigger] in_set(final(pic).rps.refresh_frame_mask, i) == o.wants(
                    old(pic).rps.refresh_frame_mask,
                    i,
                )
        }),
        *final(ctx) == (PicDecisionCtx { pic_id_per_dpb_slot: final(ctx).pic_id_per_dpb_slot, ..*old(ctx) }),
        *final(pic) == (PicParams {
            ref_mgmt: final(pic).ref_mgmt,
            rps: (Av1RpsNode { refresh_frame_mask: final(pic).rps.refresh_frame_mask, ..old(pic).rps }),
            ..*old(pic)
        }),
{
    let ghost o = outcome_of(*pic, *seq, ctx.pic_id_per_dpb_slot@);
    let refused: Option<RefMgmtDiag> = refuse(pic);
    note(&mut report.diagnostics, refused);
    if refused.is_some() {
        pic.ref_mgmt = RefMgmtEvents::default();
    }
    assert(pic.ref_mgmt == o.events);
    let clear_diag: Option<RefMgmtDiag> = match pic.ref_mgmt.clear_id {
        Some(pid) => apply_clear(pid, ctx),
        None => None,
    };
    pic.ref_mgmt.clear_id = None;
    note(&mut report.diagnostics, clear_diag);
    assert(ctx.pic_id_per_dpb_slot@ == o.released);
    let store_diag: Option<RefMgmtDiag> = match pic.ref_mgmt.store_id {
        Some(pid) => keep(pid, pic, seq, ctx, &mut report.new_store_slot),
        None => None,
    };
    note(&mut report.diagnostics, store_diag);
}

fn write_back(
    pic: &mut PicParams,
    ctx: &PicDecisionCtx,
    report: &mut RefMgmtReport,
    Ghost(pic0): Ghost<PicParams>,
    Ghost(seq): Ghost<SeqPicParams>,
    Ghost(ids0): Ghost<Seq<Option<PicId>>>,
)
    requires
        ({
            let o = outcome_of(pic0, seq, ids0);
            &&& old(report).new_store_slot == o.kept
            &&& o.kept is Some ==> o.kept->0 < 8
            &&& !old(report).use_applied
            &&& old(report).diagnostics.wf()
            &&& old(report).diagnostics@.len() <= 3
            &&& ctx.pic_id_per_dpb_slot@ == o.ids
            &&& old(pic).ref_mgmt.use_id == o.events.use_id
            &&& old(pic).is_overlay == pic0.is_overlay
            &&& forall|i: int|
                0 <= i < 8 ==> #[trigger] in_set(old(pic).rps.refresh_frame_mask, i) == o.wants(
                    pic0.rps.refresh_frame_mask,
                    i,
                )
        }),
    ensures
        ({
            let o = outcome_of(pic0, seq, ids0);
            &&& final(report).new_store_slot == o.kept
            &&& final(report).use_applied == (o.anchor is Some)
            &&& final(report).diagnostics.wf()
            &&& final(report).diagnostics@ == old(report).diagnostics@ + one(o.collapse_note(pic0)) + one(o.use_note())
            &&& forall|i: int|
                0 <= i < 8 ==> #[trigger] in_set(final(pic).rps.refresh_frame_mask, i) == o.writes(
                    pic0.rps.refresh_frame_mask,
                    i,
                )
            &&& o.anchor is Some ==> {
                let slot = o.anchor->0;
                &&& final(pic).ref_list0_count == 1
                &&& final(pic).ref_list1_count == 0
                &&& forall|k: int| 0 <= k < 7 ==> #[trigger] final(pic).rps.ref_dpb_index@[k] == slot
                &&& forall|k: int|
                    0 <= k < 7 ==> #[trigger] final(pic).rps.ref_poc_array@[k] == ctx.dpb@[slot as int].picture_number
            }
            &&& o.anchor is None ==> {
                &&& final(pic).ref_list0_count == old(pic).ref_list0_count
                &&& final(pic).ref_list1_count == old(pic).ref_list1_count
                &&& final(pic).rps.ref_dpb_index == old(pic).rps.ref_dpb_index
                &&& final(pic).rps.ref_poc_array == old(pic).rps.ref_poc_array
            }
        }),
        *final(pic) == (PicParams {
            rps: final(pic).rps,
            ref_list0_count: final(pic).ref_list0_count,
            ref_list1_count: final(pic).ref_list1_count,
            ..*old(pic)
        }),
{
    let ghost o = outcome_of(pic0, seq, ids0);
    let preserve: u8 = preserved_slots(ctx, report.new_store_slot);
    let wanted: u8 = pic.rps.refresh_frame_mask;
    let left: u8 = without(wanted, preserve);
    pic.rps.refresh_frame_mask = left;
    proof {
        lemma_collapse(o, pic0, wanted, preserve, left);
    }
    let collapse_diag: Option<RefMgmtDiag> = if wanted != 0 && left == 0 && !pic.is_overlay {
        Some(RefMgmtDiag::RefreshMaskCollapsed { wanted, preserved: preserve })
    } else {
        None
    };
    note(&mut report.diagnostics, collapse_diag);
    let mut use_diag: Option<RefMgmtDiag> = None;
    if let Some(pid) = pic.ref_mgmt.use_id {
        match find_slot(ctx, pid) {
            Some(slot) => {
                apply_use(slot, pic, ctx, preserve);
                report.use_applied = true;
            },
            None => {
                use_diag = Some(RefMgmtDiag::UseIdNotFound(pid));
            },
        }
    }
    note(&mut report.diagnostics, use_diag);
}

fn keep(pid: PicId, pic: &mut PicParams, seq: &SeqPicParams, ctx: &mut PicDecisionCtx, kept: &mut Option<u8>) -> (d:
    Option<RefMgmtDiag>)
    requires
        *old(kept) is None,
        old(pic).ref_mgmt.store_id == Some(pid),
    ensures
        ({
            let outcome = store_outcome(*seq, old(ctx).pic_id_per_dpb_slot@, pid);
            &&& outcome is Ok ==> {
                &&& *final(kept) == Some(outcome->Ok_0)
                &&& outcome->Ok_0 < 8
                &&& d is None
                &&& final(ctx).pic_id_per_dpb_slot@ == old(ctx).pic_id_per_dpb_slot@.update(
                    outcome->Ok_0 as int,
                    Some(pid),
                )
                &&& final(pic).ref_mgmt == old(pic).ref_mgmt
            }
            &&& outcome is Err ==> {
                &&& *final(kept) is None
                &&& d == Some(outcome->Err_0)
                &&& final(ctx).pic_id_per_dpb_slot@ == old(ctx).pic_id_per_dpb_slot@
                &&& final(pic).ref_mgmt == (RefMgmtEvents { store_id: None, ..old(pic).ref_mgmt })
            }
        }),
        forall|i: int|
            0 <= i < 8 ==> #[trigger] in_set(final(pic).rps.refresh_frame_mask, i) == (in_set(
                old(pic).rps.refresh_frame_mask,
                i,
            ) || *final(kept) == Some(i as u8)),
        *final(ctx) == (PicDecisionCtx { pic_id_per_dpb_slot: final(ctx).pic_id_per_dpb_slot, ..*old(ctx) }),
        *final(pic) == (PicParams {
            ref_mgmt: final(pic).ref_mgmt,
            rps: (Av1RpsNode { refresh_frame_mask: final(pic).rps.refresh_frame_mask, ..old(pic).rps }),
            ..*old(pic)
        }),
{
    match apply_store(pid, seq, ctx) {
        Ok(slot) => {
            pic.rps.refresh_frame_mask = with(pic.rps.refresh_frame_mask, slot as usize);
            *kept = Some(slot);
            None
        },
        Err(d) => {
            pic.ref_mgmt.store_id = None;
            Some(d)
        },
    }
}

fn preserved_slots(ctx: &PicDecisionCtx, new_store_slot: Option<u8>) -> (preserve: u8)
    requires
        new_store_slot is Some ==> new_store_slot->0 < 8,
    ensures
        forall|i: int|
            0 <= i < 8 ==> #[trigger] in_set(preserve, i) == (ctx.pic_id_per_dpb_slot@[i] is Some && new_store_slot
                != Some(i as u8)),
{
    let stored: u8 = stored_mask(ctx);
    match new_store_slot {
        Some(slot) => {
            proof {
                lemma_extremes();
            }
            without(stored, with(0, slot as usize))
        },
        None => stored,
    }
}

fn apply_use(slot: u8, pic: &mut PicParams, ctx: &PicDecisionCtx, preserve: u8)
    requires
        slot < 8,
    ensures
        forall|i: int| 0 <= i < 8 ==> #[trigger] in_set(final(pic).rps.refresh_frame_mask, i) == !in_set(preserve, i),
        final(pic).ref_list0_count == 1,
        final(pic).ref_list1_count == 0,
        forall|k: int| 0 <= k < 7 ==> #[trigger] final(pic).rps.ref_dpb_index@[k] == slot,
        forall|k: int|
            0 <= k < 7 ==> #[trigger] final(pic).rps.ref_poc_array@[k] == ctx.dpb@[slot as int].picture_number,
        *final(pic) == (PicParams {
            rps: final(pic).rps,
            ref_list0_count: final(pic).ref_list0_count,
            ref_list1_count: final(pic).ref_list1_count,
            ..*old(pic)
        }),
{
    let poc: u64 = ctx.dpb[slot as usize].picture_number;
    proof {
        lemma_extremes();
    }
    let refresh: u8 = without(0xff, preserve);
    pic.rps = Av1RpsNode { refresh_frame_mask: refresh, ref_dpb_index: [slot; 7], ref_poc_array: [poc; 7] };
    pic.ref_list0_count = 1;
    pic.ref_list1_count = 0;
}

proof fn lemma_collapse(o: Outcome, pic: PicParams, wanted: u8, preserve: u8, left: u8)
    requires
        forall|i: int| 0 <= i < 8 ==> #[trigger] in_set(wanted, i) == o.wants(pic.rps.refresh_frame_mask, i),
        forall|i: int| 0 <= i < 8 ==> #[trigger] in_set(preserve, i) == o.preserves(i),
        forall|i: int| 0 <= i < 8 ==> #[trigger] in_set(left, i) == (in_set(wanted, i) && !in_set(preserve, i)),
    ensures
        (wanted != 0 && left == 0 && !pic.is_overlay) == o.collapses(pic),
        wanted == set_of(|i: int| o.wants(pic.rps.refresh_frame_mask, i)),
        preserve == set_of(|i: int| o.preserves(i)),
{
    let mask0 = pic.rps.refresh_frame_mask;
    lemma_set_of(wanted, |i: int| o.wants(mask0, i));
    lemma_set_of(preserve, |i: int| o.preserves(i));
    lemma_empty(wanted);
    lemma_empty(left);
    if wanted != 0 {
        let i = choose|i: int| 0 <= i < 8 && in_set(wanted, i);
        assert(o.wants(mask0, i));
    }
    if left != 0 {
        let i = choose|i: int| 0 <= i < 8 && in_set(left, i);
        assert(in_set(wanted, i) && !in_set(preserve, i));
        assert(o.wants(mask0, i) && !o.preserves(i));
    } else {
        assert forall|i: int| 0 <= i < 8 implies !(#[trigger] o.wants(mask0, i) && !o.preserves(i)) by {
            assert(!in_set(left, i));
            assert(in_set(wanted, i) == o.wants(mask0, i));
            assert(in_set(preserve, i) == o.preserves(i));
        }
    }
    if exists|i: int| 0 <= i < 8 && #[trigger] o.wants(mask0, i) {
        let i = choose|i: int| 0 <= i < 8 && #[trigger] o.wants(mask0, i);
        assert(in_set(wanted, i));
    }
}

proof fn lemma_empty(mask: u8)
    ensures
        mask != 0 <==> exists|i: int| 0 <= i < 8 && in_set(mask, i),
{
    lemma_extremes();
    if forall|i: int| 0 <= i < 8 ==> !in_set(mask, i) {
        lemma_same_slots(mask, 0);
    }
}

proof fn lemma_free(seq: SeqPicParams, ids: Seq<Option<PicId>>, i: int)
    requires
        0 <= i <= 8,
    ensures
        free_from(seq, ids, i) is Some ==> {
            let s = free_from(seq, ids, i)->0;
            &&& i <= s < 8
            &&& storeable(seq, s as int)
            &&& ids[s as int] is None
            &&& forall|k: int| i <= k < s ==> !(storeable(seq, k) && (#[trigger] ids[k]) is None)
        },
        free_from(seq, ids, i) is None ==> forall|k: int|
            i <= k < 8 ==> !(storeable(seq, k) && (#[trigger] ids[k]) is None),
    decreases 8 - i,
{
    if i < 8 && !(storeable(seq, i) && ids[i] is None) {
        lemma_free(seq, ids, i + 1);
    }
}

proof fn lemma_held_update(ids: Seq<Option<PicId>>, s: int, v: Option<PicId>, n: int)
    requires
        ids.len() == 8,
        0 <= s < 8,
        0 <= n <= 8,
    ensures
        held_in(ids.update(s, v), n) == held_in(ids, n) + if s < n {
            (if v is Some {
                1int
            } else {
                0
            }) - if ids[s] is Some {
                1int
            } else {
                0
            }
        } else {
            0
        },
    decreases n,
{
    if n > 0 {
        lemma_held_update(ids, s, v, n - 1);
    }
}

/// A kept picture is never overwritten: a picture is written only to slots
/// that keep nothing, and to the one it is kept in itself.
pub proof fn kept_pictures_are_not_overwritten(
    pic: PicParams,
    seq: SeqPicParams,
    ids0: Seq<Option<PicId>>,
    mask0: u8,
    i: int,
)
    requires
        0 <= i < 8,
        outcome_of(pic, seq, ids0).writes(mask0, i),
    ensures
        outcome_of(pic, seq, ids0).ids[i] is None || outcome_of(pic, seq, ids0).kept == Some(i as u8),
{
}

/// Where nothing is asked for and nothing is kept, nothing changes.
pub proof fn nothing_kept_changes_nothing(pic: PicParams, seq: SeqPicParams, ids0: Seq<Option<PicId>>, mask0: u8)
    requires
        ids0.len() == 8,
        !pic.ref_mgmt.asks(),
        forall|i: int| 0 <= i < 8 ==> (#[trigger] ids0[i]) is None,
    ensures
        ({
            let o = outcome_of(pic, seq, ids0);
            &&& o.ids == ids0
            &&& o.kept is None
            &&& o.anchor is None
            &&& o.diagnostics(pic, seq, ids0).len() == 0
            &&& forall|i: int| 0 <= i < 8 ==> #[trigger] o.writes(mask0, i) == in_set(mask0, i)
        }),
{
    let o = outcome_of(pic, seq, ids0);
    if o.collapses(pic) {
        let i = choose|i: int| 0 <= i < 8 && #[trigger] o.wants(pic.rps.refresh_frame_mask, i);
        assert(!o.preserves(i));
    }
}

/// Refused requests change neither the names nor the references.
pub proof fn refused_requests_are_ignored(pic: PicParams, seq: SeqPicParams, ids0: Seq<Option<PicId>>)
    requires
        refusal(pic) is Some,
    ensures
        outcome_of(pic, seq, ids0).ids == ids0,
        outcome_of(pic, seq, ids0).kept is None,
        outcome_of(pic, seq, ids0).anchor is None,
{
}

/// A picture that is kept is found under its name, in a slot that pictures
/// may be kept in and that held nothing.
pub proof fn kept_pictures_are_found(pic: PicParams, seq: SeqPicParams, ids0: Seq<Option<PicId>>)
    requires
        ids0.len() == 8,
        outcome_of(pic, seq, ids0).kept is Some,
    ensures
        ({
            let o = outcome_of(pic, seq, ids0);
            &&& slot_of(o.ids, o.events.store_id->0) == o.kept
            &&& storeable(seq, (o.kept->0) as int)
            &&& o.released[(o.kept->0) as int] is None
        }),
{
    let o = outcome_of(pic, seq, ids0);
    let pid = o.events.store_id->0;
    if o.events.clear_id is Some {
        lemma_slot_found(ids0, o.events.clear_id->0, 0);
    }
    lemma_free(seq, o.released, 0);
    lemma_slot_found(o.released, pid, 0);
    lemma_slot_found(o.ids, pid, 0);
    let s = (o.kept->0) as int;
    assert(o.ids[s] == Some(pid));
    assert(slot_of(o.ids, pid) is Some);
    let t = (slot_of(o.ids, pid)->0) as int;
    if t != s {
        assert(o.ids[t] == o.released[t]);
        assert(false);
    }
}

/// A picture can be kept in the slot that was released with the same
/// picture: where that slot may keep one, the cap leaves room and the name is
/// not in use, the picture is kept, in that slot or an earlier one.
pub proof fn released_slots_can_be_reused(pic: PicParams, seq: SeqPicParams, ids0: Seq<Option<PicId>>)
    requires
        ids0.len() == 8,
        refusal(pic) is None,
        pic.ref_mgmt.clear_id is Some,
        pic.ref_mgmt.store_id is Some,
        slot_of(ids0, pic.ref_mgmt.clear_id->0) is Some,
        storeable(seq, (slot_of(ids0, pic.ref_mgmt.clear_id->0)->0) as int),
        held_in(ids0, 8) <= seq.max_managed_refs,
        slot_of(ids0, pic.ref_mgmt.store_id->0) is None,
    ensures
        outcome_of(pic, seq, ids0).kept is Some,
        outcome_of(pic, seq, ids0).kept->0 <= slot_of(ids0, pic.ref_mgmt.clear_id->0)->0,
{
    let o = outcome_of(pic, seq, ids0);
    let s = (slot_of(ids0, pic.ref_mgmt.clear_id->0)->0) as int;
    lemma_slot_found(ids0, pic.ref_mgmt.clear_id->0, 0);
    lemma_slot_found(ids0, pic.ref_mgmt.store_id->0, 0);
    lemma_held_update(ids0, s, None, 8);
    lemma_slot_found(o.released, pic.ref_mgmt.store_id->0, 0);
    lemma_free(seq, o.released, 0);
    assert(o.released == ids0.update(s, None));
    assert(o.released[s] is None);
    if slot_of(o.released, pic.ref_mgmt.store_id->0) is Some {
        let t = (slot_of(o.released, pic.ref_mgmt.store_id->0)->0) as int;
        assert(o.released[t] == ids0[t]);
        assert(false);
    }
    assert(store_outcome(seq, o.released, pic.ref_mgmt.store_id->0) is Ok);
}

/// The number of kept pictures never exceeds the cap, once it does not.
pub proof fn the_cap_is_kept(pic: PicParams, seq: SeqPicParams, ids0: Seq<Option<PicId>>)
    requires
        ids0.len() == 8,
        held_in(ids0, 8) <= seq.max_managed_refs,
    ensures
        held_in(outcome_of(pic, seq, ids0).ids, 8) <= seq.max_managed_refs,
{
    let o = outcome_of(pic, seq, ids0);
    if o.events.clear_id is Some {
        lemma_slot_found(ids0, o.events.clear_id->0, 0);
        if slot_of(ids0, o.events.clear_id->0) is Some {
            lemma_held_update(ids0, (slot_of(ids0, o.events.clear_id->0)->0) as int, None, 8);
        }
    }
    if o.kept is Some {
        lemma_free(seq, o.released, 0);
        lemma_held_update(o.released, (o.kept->0) as int, o.events.store_id, 8);
    }
}

/// No two slots keep pictures under the same name.
pub open spec fn names_are_unique(ids: Seq<Option<PicId>>) -> bool {
    forall|i: int, j: int|
        0 <= i < j < 8 && (#[trigger] ids[i]) is Some ==> ids[i] != #[trigger] ids[j]
}

/// Names stay unique.
pub proof fn names_stay_unique(pic: PicParams, seq: SeqPicParams, ids0: Seq<Option<PicId>>)
    requires
        ids0.len() == 8,
        names_are_unique(ids0),
    ensures
        names_are_unique(outcome_of(pic, seq, ids0).ids),
{
    let o = outcome_of(pic, seq, ids0);
    if o.events.clear_id is Some {
        lemma_slot_found(ids0, o.events.clear_id->0, 0);
    }
    assert(names_are_unique(o.released));
    if o.kept is Some {
        lemma_free(seq, o.released, 0);
        lemma_slot_found(o.released, o.events.store_id->0, 0);
    }
}

} // verus!
