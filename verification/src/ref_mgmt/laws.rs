//! What requests on kept pictures lead to, and what is reported of them.

use vstd::prelude::*;

use crate::picstruct::{PicId, PicParams, SeqPicParams};
use crate::ref_mgmt::{
    free_from, held_in, outcome_of, refusal, slot_from, slot_of, store_outcome, storeable, RefMgmtDiag,
};

verus! {

/// Requests are refused on an overlay, above the base layer, and where two of
/// them carry one name; a picture that asks for nothing is refused nothing.
pub proof fn requests_are_refused_for_three_reasons(pic: PicParams)
    ensures
        ({
            let e = pic.ref_mgmt;
            let asks = e.store_id is Some || e.clear_id is Some || e.use_id is Some;
            let twice = e.store_id is Some && (e.store_id == e.clear_id || e.store_id == e.use_id) || (e.clear_id is Some
                && e.clear_id == e.use_id);
            &&& refusal(pic) is Some <==> asks && (pic.is_overlay || pic.temporal_layer_index > 0 || twice)
            &&& refusal(pic) == Some(RefMgmtDiag::EventsOnOverlay) <==> asks && pic.is_overlay
            &&& refusal(pic) == Some(RefMgmtDiag::DuplicateIdAcrossEvents) <==> asks && !pic.is_overlay
                && pic.temporal_layer_index == 0 && twice
        }),
{
}

proof fn lemma_first_free(seq: SeqPicParams, ids: Seq<Option<PicId>>, i: int)
    requires
        0 <= i <= 8,
    ensures
        free_from(seq, ids, i) is Some ==> {
            let s = (free_from(seq, ids, i)->0) as int;
            &&& i <= s < 8
            &&& storeable(seq, s)
            &&& ids[s] is None
            &&& forall|k: int| i <= k < s ==> !storeable(seq, k) || (#[trigger] ids[k]) is Some
        },
        free_from(seq, ids, i) is None ==> forall|k: int|
            i <= k < 8 ==> !storeable(seq, k) || (#[trigger] ids[k]) is Some,
    decreases 8 - i,
{
    if i < 8 && !(storeable(seq, i) && ids[i] is None) {
        lemma_first_free(seq, ids, i + 1);
    }
}

proof fn lemma_first_slot(ids: Seq<Option<PicId>>, p: PicId, i: int)
    requires
        0 <= i <= 8,
    ensures
        slot_from(ids, p, i) is Some ==> {
            let s = (slot_from(ids, p, i)->0) as int;
            &&& i <= s < 8
            &&& ids[s] == Some(p)
            &&& forall|k: int| i <= k < s ==> #[trigger] ids[k] != Some(p)
        },
        slot_from(ids, p, i) is None ==> forall|k: int| i <= k < 8 ==> #[trigger] ids[k] != Some(p),
    decreases 8 - i,
{
    if i < 8 && ids[i] != Some(p) {
        lemma_first_slot(ids, p, i + 1);
    }
}

/// A picture is found in the first slot that holds its name, and nowhere where
/// none does.
pub proof fn pictures_are_found_by_name(ids: Seq<Option<PicId>>, p: PicId)
    requires
        ids.len() == 8,
    ensures
        slot_of(ids, p) is Some <==> ids.contains(Some(p)),
        slot_of(ids, p) is Some ==> ids[(slot_of(ids, p)->0) as int] == Some(p),
        slot_of(ids, p) is Some ==> forall|k: int| 0 <= k < slot_of(ids, p)->0 ==> #[trigger] ids[k] != Some(p),
{
    lemma_first_slot(ids, p, 0);
    if slot_of(ids, p) is Some {
        assert(ids[(slot_of(ids, p)->0) as int] == Some(p));
    }
}

/// A picture is kept in the first free slot that may keep one; where its name
/// is taken, the cap is reached or no such slot is free, it is not, for the
/// first of these reasons.
pub proof fn pictures_are_kept_in_the_first_free_slot(seq: SeqPicParams, ids: Seq<Option<PicId>>, p: PicId)
    requires
        ids.len() == 8,
    ensures
        ({
            let r = store_outcome(seq, ids, p);
            let taken = ids.contains(Some(p));
            let full = held_in(ids, 8) >= seq.max_managed_refs;
            &&& r is Ok ==> {
                let s = (r->Ok_0) as int;
                &&& s < 8 && ids[s] is None && storeable(seq, s)
                &&& forall|k: int| 0 <= k < s && storeable(seq, k) ==> (#[trigger] ids[k]) is Some
            }
            &&& r is Ok <==> !taken && !full && exists|k: int| 0 <= k < 8 && storeable(seq, k) && (#[trigger] ids[k]) is None
            &&& taken ==> r == Err::<u8, RefMgmtDiag>(RefMgmtDiag::StoreIdAlreadyHeld(p))
            &&& !taken && full ==> r == Err::<u8, RefMgmtDiag>(
                RefMgmtDiag::StoreCapReached { held: held_in(ids, 8) as u8, cap: seq.max_managed_refs },
            )
            &&& !taken && !full && r is Err ==> (r->Err_0) is StorePoolFull
        }),
{
    lemma_first_free(seq, ids, 0);
    pictures_are_found_by_name(ids, p);
    if free_from(seq, ids, 0) is Some {
        let s = (free_from(seq, ids, 0)->0) as int;
        assert(storeable(seq, s) && ids[s] is None);
    }
}

/// A flat real-time sequence keeps pictures in the upper half of the slots, a
/// layered low-delay one where none of its own pictures is written alone, and
/// any other anywhere.
pub proof fn slots_that_may_keep(seq: SeqPicParams, i: int)
    requires
        0 <= i < 8,
    ensures
        seq.hierarchical_levels == 0 && seq.rtc ==> (storeable(seq, i) <==> i >= 4),
        seq.hierarchical_levels == 0 && !seq.rtc ==> storeable(seq, i),
        seq.pred_structure is RandomAccess && seq.hierarchical_levels > 0 ==> storeable(seq, i),
        seq.pred_structure is LowDelay && seq.hierarchical_levels > 0 ==> {
            let reduce = seq.mrp_ctrls.ld_reduce_ref_buffs;
            &&& reduce == 0 && seq.hierarchical_levels == 1 ==> (storeable(seq, i) <==> i >= 5)
            &&& reduce == 0 && seq.hierarchical_levels >= 2 ==> (storeable(seq, i) <==> i >= 6)
            &&& reduce == 1 ==> (storeable(seq, i) <==> i != 3)
            &&& reduce == 2 ==> (storeable(seq, i) <==> i != 1)
            &&& reduce > 2 ==> storeable(seq, i)
        },
{
}

/// A name that is released is free again in its slot, and other names stay
/// where they are; a picture that is kept has its name in its slot.
pub proof fn names_change_only_where_asked(pic: PicParams, seq: SeqPicParams, ids0: Seq<Option<PicId>>, i: int)
    requires
        ids0.len() == 8,
        0 <= i < 8,
    ensures
        ({
            let o = outcome_of(pic, seq, ids0);
            let e = pic.ref_mgmt;
            &&& refusal(pic) is Some ==> o.ids[i] == ids0[i]
            &&& refusal(pic) is None && e.clear_id is Some && slot_of(ids0, e.clear_id->0) == Some(i as u8)
                ==> o.released[i] is None
            &&& o.kept == Some(i as u8) ==> o.ids[i] == e.store_id
            &&& o.ids[i] != ids0[i] ==> o.kept == Some(i as u8) || (e.clear_id is Some && slot_of(ids0, e.clear_id->0)
                == Some(i as u8))
        }),
{
    let e = pic.ref_mgmt;
    if e.clear_id is Some {
        lemma_first_slot(ids0, e.clear_id->0, 0);
    }
    let o = outcome_of(pic, seq, ids0);
    lemma_first_free(seq, o.released, 0);
}

/// A picture that is predicted from a kept one alone is written to every slot
/// that keeps no other; one that is not, to those it was meant for and the one
/// it is kept in, but never over another kept picture.
pub proof fn pictures_are_written_around_kept_ones(
    pic: PicParams,
    seq: SeqPicParams,
    ids0: Seq<Option<PicId>>,
    mask: u8,
    i: int,
)
    requires
        ids0.len() == 8,
        0 <= i < 8,
    ensures
        ({
            let o = outcome_of(pic, seq, ids0);
            let other = o.ids[i] is Some && o.kept != Some(i as u8);
            &&& other ==> !o.writes(mask, i)
            &&& !other && o.anchor is Some ==> o.writes(mask, i)
            &&& !other && o.anchor is None ==> (o.writes(mask, i) <==> crate::slots::in_set(mask, i) || o.kept == Some(
                i as u8,
            ))
        }),
{
}

/// What is reported: one note for each request that could not be met, in order,
/// and none where all were.
pub proof fn met_requests_are_not_reported(pic: PicParams, seq: SeqPicParams, ids0: Seq<Option<PicId>>)
    requires
        ids0.len() == 8,
        refusal(pic) is None,
    ensures
        ({
            let o = outcome_of(pic, seq, ids0);
            let e = pic.ref_mgmt;
            let notes = o.diagnostics(pic, seq, ids0);
            &&& e.clear_id is Some && !ids0.contains(e.clear_id) ==> notes.len() > 0 && notes[0]
                == RefMgmtDiag::ClearIdNotFound(e.clear_id->0)
            &&& e.use_id is Some && o.anchor is None ==> notes.len() > 0 && notes.last() == RefMgmtDiag::UseIdNotFound(
                e.use_id->0,
            )
            &&& (e.clear_id is Some ==> ids0.contains(e.clear_id)) && (e.store_id is Some ==> o.kept is Some) && (
            e.use_id is Some ==> o.anchor is Some) && !o.collapses(pic) ==> notes.len() == 0
        }),
{
    let e = pic.ref_mgmt;
    if e.clear_id is Some {
        pictures_are_found_by_name(ids0, e.clear_id->0);
        assert(e.clear_id == Some(e.clear_id->0));
    }
}

} // verus!
