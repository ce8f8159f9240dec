//! Which frames of the window a frame refers to.

use vstd::prelude::*;

use crate::tpl::{no_refs, TplData, TplRefDs};
use crate::types::SliceType;

verus! {

/// What the model reads of a picture of the window.
#[derive(Debug, Clone, Copy)]
pub struct TplPrepPic {
    pub slice_type: SliceType,
    pub temporal_layer_index: u8,
    pub is_ref: bool,
    pub decode_order: i32,
    pub picture_number: u64,
    /// References per list.
    pub ref_list_count_try: [u8; 2],
    pub ref_pic_poc: [[u64; 8]; 2],
    /// Positions in the caller's list of reference pictures.
    pub ref_pic_index: [[usize; 8]; 2],
    pub ref_poc_ds: [[u64; 8]; 2],
}

/// `j` is the first position of `poc` in the window, or -1 where it is not.
pub open spec fn first_at(pocs: Seq<u64>, poc: u64, j: int) -> bool {
    if j == -1 {
        forall|k: int| 0 <= k < pocs.len() ==> #[trigger] pocs[k] != poc
    } else {
        &&& 0 <= j < pocs.len()
        &&& pocs[j] == poc
        &&& forall|k: int| 0 <= k < j ==> #[trigger] pocs[k] != poc
    }
}

/// Reference `i` of list `l` is recorded in `new`: its place in the window,
/// and its picture.
pub open spec fn ref_recorded(
    pocs: Seq<u64>,
    pic: TplPrepPic,
    old_data: TplData,
    new: TplData,
    l: int,
    i: int,
) -> bool {
    &&& first_at(pocs, pic.ref_pic_poc[l][i], new.ref_tpl_group_idx[l][i] as int)
    &&& new.ref_in_slide_window[l][i] == (old_data.ref_in_slide_window[l][i] || new.ref_tpl_group_idx[l][i]
        != -1)
    &&& new.tpl_ref_ds[l][i] == (TplRefDs {
        picture_number: pic.ref_poc_ds[l][i],
        pic_index: pic.ref_pic_index[l][i],
    })
}

/// Reference `i` of list `l` is as it was.
pub open spec fn ref_untouched(old_data: TplData, new: TplData, l: int, i: int) -> bool {
    &&& new.ref_tpl_group_idx[l][i] == old_data.ref_tpl_group_idx[l][i]
    &&& new.ref_in_slide_window[l][i] == old_data.ref_in_slide_window[l][i]
    &&& new.tpl_ref_ds[l][i] == old_data.tpl_ref_ds[l][i]
}

/// Reference `i` of list `l` once the lists before `list`, and `upto`
/// references of that list, have been recorded.
pub open spec fn ref_state(
    pocs: Seq<u64>,
    pic: TplPrepPic,
    old_data: TplData,
    new: TplData,
    list: int,
    upto: int,
    l: int,
    i: int,
) -> bool {
    if (l < list && i < pic.ref_list_count_try[l]) || (l == list && i < upto) {
        ref_recorded(pocs, pic, old_data, new, l, i)
    } else {
        ref_untouched(old_data, new, l, i)
    }
}

/// Every reference is in the state of [`ref_state`].
pub open spec fn ref_progress(
    pocs: Seq<u64>,
    pic: TplPrepPic,
    old_data: TplData,
    new: TplData,
    list: int,
    upto: int,
) -> bool {
    forall|l: int, i: int|
        0 <= l < 2 && 0 <= i < 8 ==> #[trigger] ref_state(pocs, pic, old_data, new, list, upto, l, i)
}

/// The fields that do not concern references are equal.
pub open spec fn same_picture(a: TplData, b: TplData) -> bool {
    &&& a.tpl_slice_type == b.tpl_slice_type
    &&& a.tpl_temporal_layer_index == b.tpl_temporal_layer_index
    &&& a.is_ref == b.is_ref
    &&& a.tpl_decode_order == b.tpl_decode_order
}

/// The references of both lists are recorded and the rest is unchanged.
pub open spec fn refs_set_up(pocs: Seq<u64>, pic: TplPrepPic, old_data: TplData, new: TplData) -> bool {
    &&& same_picture(old_data, new)
    &&& new.tpl_ref0_count == pic.ref_list_count_try[0]
    &&& new.tpl_ref1_count == pic.ref_list_count_try[1]
    &&& ref_progress(pocs, pic, old_data, new, 2, 0)
}

fn find_poc(pocs: &[u64], poc: u64) -> (r: i32)
    requires
        pocs@.len() <= 0x7fff_ffff,
    ensures
        first_at(pocs@, poc, r as int),
{
    let mut j: usize = 0;
    while j < pocs.len()
        invariant
            j <= pocs@.len() <= 0x7fff_ffff,
            forall|k: int| 0 <= k < j ==> #[trigger] pocs@[k] != poc,
        decreases pocs@.len() - j,
    {
        if pocs[j] == poc {
            return j as i32;
        }
        j = j + 1;
    }
    -1
}

/// Records the references of a picture: their number, their places in the
/// window and their pictures.
pub fn tpl_regular_setup_me_refs(group_pocs: &[u64], pic: &TplPrepPic, tpl_data: &mut TplData)
    requires
        group_pocs@.len() <= 0x7fff_ffff,
        pic.ref_list_count_try[0] <= 8,
        pic.ref_list_count_try[1] <= 8,
    ensures
        refs_set_up(group_pocs@, *pic, *old(tpl_data), *final(tpl_data)),
{
    let ghost start = *tpl_data;
    tpl_data.tpl_ref0_count = pic.ref_list_count_try[0];
    tpl_data.tpl_ref1_count = pic.ref_list_count_try[1];
    let mut list: usize = 0;
    while list < 2
        invariant
            list <= 2,
            group_pocs@.len() <= 0x7fff_ffff,
            pic.ref_list_count_try[0] <= 8,
            pic.ref_list_count_try[1] <= 8,
            same_picture(start, *tpl_data),
            tpl_data.tpl_ref0_count == pic.ref_list_count_try[0],
            tpl_data.tpl_ref1_count == pic.ref_list_count_try[1],
            ref_progress(group_pocs@, *pic, start, *tpl_data, list as int, 0),
        decreases 2 - list,
    {
        let count: usize = pic.ref_list_count_try[list] as usize;
        let mut i: usize = 0;
        while i < count
            invariant
                list < 2,
                i <= count,
                count == pic.ref_list_count_try[list as int],
                count <= 8,
                group_pocs@.len() <= 0x7fff_ffff,
                same_picture(start, *tpl_data),
                tpl_data.tpl_ref0_count == pic.ref_list_count_try[0],
                tpl_data.tpl_ref1_count == pic.ref_list_count_try[1],
                ref_progress(group_pocs@, *pic, start, *tpl_data, list as int, i as int),
            decreases count - i,
        {
            let ghost before = *tpl_data;
            let j: i32 = find_poc(group_pocs, pic.ref_pic_poc[list][i]);
            tpl_data.ref_tpl_group_idx[list][i] = j;
            if j != -1 {
                tpl_data.ref_in_slide_window[list][i] = true;
            }
            tpl_data.tpl_ref_ds[list][i] = TplRefDs {
                picture_number: pic.ref_poc_ds[list][i],
                pic_index: pic.ref_pic_index[list][i],
            };
            proof {
                assert forall|l: int, k: int| 0 <= l < 2 && 0 <= k < 8 implies #[trigger] ref_state(
                    group_pocs@,
                    *pic,
                    start,
                    *tpl_data,
                    list as int,
                    i + 1,
                    l,
                    k,
                ) by {
                    assert(ref_state(group_pocs@, *pic, start, before, list as int, i as int, l, k));
                    if l != list || k != i {
                        assert(ref_untouched(before, *tpl_data, l, k));
                    }
                }
            }
            i = i + 1;
        }
        list = list + 1;
        proof {
            assert forall|l: int, k: int| 0 <= l < 2 && 0 <= k < 8 implies #[trigger] ref_state(
                group_pocs@,
                *pic,
                start,
                *tpl_data,
                list as int,
                0,
                l,
                k,
            ) by {
                assert(ref_state(group_pocs@, *pic, start, *tpl_data, list - 1, count as int, l, k));
            }
        }
    }
}

/// The references of a picture, starting from none.
pub open spec fn prepared(pocs: Seq<u64>, pic: TplPrepPic, d: TplData) -> bool {
    &&& d.tpl_slice_type == pic.slice_type
    &&& d.tpl_temporal_layer_index == pic.temporal_layer_index
    &&& d.is_ref == pic.is_ref
    &&& d.tpl_decode_order == pic.decode_order
    &&& if pic.slice_type is I {
        no_refs(d)
    } else {
        exists|blank: TplData| no_refs(blank) && #[trigger] refs_set_up(pocs, pic, blank, d)
    }
}

/// The references of every picture of a window. Intra pictures have none.
pub fn tpl_prep_info(group_pocs: &[u64], pics: &[TplPrepPic]) -> (r: Vec<TplData>)
    requires
        group_pocs@.len() == pics@.len(),
        group_pocs@.len() <= 0x7fff_ffff,
        forall|i: int|
            0 <= i < pics@.len() ==> (#[trigger] pics@[i]).ref_list_count_try[0] <= 8
                && pics@[i].ref_list_count_try[1] <= 8,
    ensures
        r@.len() == pics@.len(),
        forall|i: int| 0 <= i < pics@.len() ==> prepared(group_pocs@, pics@[i], #[trigger] r@[i]),
{
    let mut r: Vec<TplData> = Vec::new();
    let mut i: usize = 0;
    while i < pics.len()
        invariant
            i <= pics@.len(),
            group_pocs@.len() <= 0x7fff_ffff,
            r@.len() == i,
            forall|k: int|
                0 <= k < pics@.len() ==> (#[trigger] pics@[k]).ref_list_count_try[0] <= 8
                    && pics@[k].ref_list_count_try[1] <= 8,
            forall|k: int| 0 <= k < i ==> prepared(group_pocs@, pics@[k], #[trigger] r@[k]),
        decreases pics@.len() - i,
    {
        let pic: &TplPrepPic = &pics[i];
        let mut d: TplData = TplData::default();
        d.tpl_slice_type = pic.slice_type;
        d.tpl_temporal_layer_index = pic.temporal_layer_index;
        d.is_ref = pic.is_ref;
        d.tpl_decode_order = pic.decode_order;
        let ghost blank = d;
        assert(no_refs(blank));
        if pic.slice_type != SliceType::I {
            tpl_regular_setup_me_refs(group_pocs, pic, &mut d);
            assert(refs_set_up(group_pocs@, *pic, blank, d));
        }
        assert(prepared(group_pocs@, pics@[i as int], d));
        r.push(d);
        i = i + 1;
    }
    r
}

/// A prepared reference is marked as a frame of the window exactly when its
/// picture is one.
pub proof fn prepared_refs_know_the_window(pocs: Seq<u64>, pic: TplPrepPic, d: TplData, l: int, i: int)
    requires
        prepared(pocs, pic, d),
        !(pic.slice_type is I),
        0 <= l < 2,
        0 <= i < pic.ref_list_count_try[l],
        pic.ref_list_count_try[l] <= 8,
    ensures
        d.ref_in_slide_window[l][i] <==> pocs.contains(pic.ref_pic_poc[l][i]),
        d.ref_in_slide_window[l][i] ==> 0 <= d.ref_tpl_group_idx[l][i] < pocs.len()
            && pocs[d.ref_tpl_group_idx[l][i] as int] == pic.ref_pic_poc[l][i],
{
    let blank = choose|b: TplData| no_refs(b) && #[trigger] refs_set_up(pocs, pic, b, d);
    assert(ref_state(pocs, pic, blank, d, 2, 0, l, i));
    assert(!blank.ref_in_slide_window[l][i]);
}

} // verus!
