//! What a switch frame does to the reference structure.

use vstd::arithmetic::power2::{lemma2_to64_rest, pow2};
use vstd::prelude::*;

use crate::arith::{low_u32, pow2_i64};
use crate::picstruct::{
    Av1RpsNode, EncCtxPicParams, PicDecisionCtx, PicParams, PredStructure, BWDREF_FRAME, REF_FRAMES,
};
use crate::sframe::SFrameConfig;
use crate::slots::{holds, in_set};

verus! {

/// Makes a switch frame a point to start decoding at: it is resilient to
/// errors and written to every slot, the layer toggles start over, and its
/// number is remembered.
pub fn set_sframe_rps(pic: &mut PicParams, ctx: &mut PicDecisionCtx, enc_ctx: &mut EncCtxPicParams)
    ensures
        *final(pic) == (PicParams {
            error_resilient_mode: true,
            rps: (Av1RpsNode { refresh_frame_mask: 0xff, ..old(pic).rps }),
            ..*old(pic)
        }),
        *final(ctx) == (PicDecisionCtx {
            lay0_toggle: 0,
            lay1_toggle: 0,
            sframe_poc: old(pic).picture_number,
            ..*old(ctx)
        }),
        final(enc_ctx).elapsed_non_cra_count == 0,
{
    pic.error_resilient_mode = true;
    pic.rps.refresh_frame_mask = 0xff;
    ctx.lay0_toggle = 0;
    ctx.lay1_toggle = 0;
    ctx.sframe_poc = pic.picture_number;
    enc_ctx.elapsed_non_cra_count = 0;
}

/// An order hint: the low bits of a picture number, in 32 bits.
pub open spec fn order_hint(number: int, bits: u32) -> int {
    number % (pow2(bits as nat) as int) % 0x1_0000_0000
}

fn hint_of(number: u64, bits: u32) -> (r: u32)
    requires
        bits < 64,
    ensures
        r == order_hint(number as int, bits),
{
    if bits == 63 {
        proof {
            lemma2_to64_rest();
        }
        low_u32(number % 0x8000_0000_0000_0000)
    } else {
        low_u32(number % (pow2_i64(bits) as u64))
    }
}

/// `split` is a function of a reference type, defined everywhere.
pub open spec fn is_split<F: Fn(i8) -> [i8; 2]>(split: F) -> bool {
    &&& forall|t: i8| #[trigger] call_requires(split, (t,))
    &&& forall|t: i8, a: [i8; 2], b: [i8; 2]| #[trigger]
        call_ensures(split, (t,), a) && #[trigger] call_ensures(split, (t,), b) ==> a@ == b@
}

/// The two references of a reference type; the second is negative where there
/// is one only.
pub open spec fn split_of<F: Fn(i8) -> [i8; 2]>(split: F, t: i8) -> [i8; 2] {
    choose|a: [i8; 2]| #[trigger] call_ensures(split, (t,), a)
}

/// `split` has returned the references of the first `n` types.
pub open spec fn all_split<F: Fn(i8) -> [i8; 2]>(split: F, s: Seq<i8>, n: int) -> bool {
    forall|i: int| 0 <= i < n ==> call_ensures(split, (#[trigger] s[i],), split_of(split, s[i]))
}

/// A forward reference whose entry in the picture's hints is that of the
/// switch frame.
pub open spec fn is_hit(hints: Seq<u32>, hint: int, r: i8) -> bool {
    0 <= r < BWDREF_FRAME && hints[r as int] == hint
}

/// A reference type is taken away.
pub open spec fn is_pruned<F: Fn(i8) -> [i8; 2]>(split: F, hints: Seq<u32>, hint: int, t: i8) -> bool {
    let rf = split_of(split, t);
    is_hit(hints, hint, rf[0]) || is_hit(hints, hint, rf[1])
}

/// The entries among the first `n` that stay, in order.
pub open spec fn surviving<F: Fn(i8) -> [i8; 2]>(
    split: F,
    hints: Seq<u32>,
    hint: int,
    s: Seq<i8>,
    n: int,
) -> Seq<i8>
    decreases n,
{
    if n <= 0 {
        Seq::empty()
    } else if is_pruned(split, hints, hint, s[n - 1]) {
        surviving(split, hints, hint, s, n - 1)
    } else {
        surviving(split, hints, hint, s, n - 1).push(s[n - 1])
    }
}

/// References are taken away: motion fields are estimated, and the picture
/// comes before a switch frame.
pub open spec fn prunes(pic: PicParams, cfg: SFrameConfig, ctx: PicDecisionCtx) -> bool {
    ctx.sframe_poc > 0 && pic.picture_number < ctx.sframe_poc && cfg.mfmv_enabled
}

/// The list once references have been taken away: those that stay, in order,
/// then the last entry as often as the list shrank.
pub open spec fn is_pruned_list<F: Fn(i8) -> [i8; 2]>(
    split: F,
    hints: Seq<u32>,
    hint: int,
    a: Seq<i8>,
    n: int,
    b: Seq<i8>,
    m: int,
) -> bool {
    let kept = surviving(split, hints, hint, a, n);
    &&& m == kept.len()
    &&& b.len() == a.len()
    &&& forall|i: int| 0 <= i < m ==> #[trigger] b[i] == kept[i]
    &&& forall|i: int| m <= i < n ==> #[trigger] b[i] == a[n - 1]
    &&& forall|i: int| n <= i < a.len() ==> #[trigger] b[i] == a[i]
}

fn hits(hints: &[u32; 7], hint: u32, r: i8) -> (b: bool)
    ensures
        b == is_hit(hints@, hint as int, r),
{
    0 <= r && r < BWDREF_FRAME && hints[r as usize] == hint
}

/// Takes away, from a picture before a switch frame, the reference types with
/// a forward reference at the switch frame. Returns whether there were any.
pub fn prune_sframe_refs<F: Fn(i8) -> [i8; 2]>(
    pic: &PicParams,
    cfg: &SFrameConfig,
    ctx: &PicDecisionCtx,
    ref_frame_arr: &mut [i8],
    tot_ref_frames: &mut u8,
    split: &F,
) -> (pruned: bool)
    requires
        prunes(*pic, *cfg, *ctx) ==> {
            &&& is_split(*split)
            &&& cfg.order_hint_bits < 64
            &&& *old(tot_ref_frames) <= old(ref_frame_arr)@.len()
        },
    ensures
        !prunes(*pic, *cfg, *ctx) ==> {
            &&& !pruned
            &&& final(ref_frame_arr)@ == old(ref_frame_arr)@
            &&& *final(tot_ref_frames) == *old(tot_ref_frames)
        },
        prunes(*pic, *cfg, *ctx) ==> {
            &&& is_pruned_list(
                *split,
                pic.ref_order_hint@,
                order_hint(ctx.sframe_poc as int, cfg.order_hint_bits),
                old(ref_frame_arr)@,
                *old(tot_ref_frames) as int,
                final(ref_frame_arr)@,
                *final(tot_ref_frames) as int,
            )
            &&& pruned == (*final(tot_ref_frames) < *old(tot_ref_frames))
            &&& all_split(*split, old(ref_frame_arr)@, *old(tot_ref_frames) as int)
        },
{
    if !(ctx.sframe_poc > 0 && pic.picture_number < ctx.sframe_poc && cfg.mfmv_enabled) {
        return false;
    }
    let sframe_poc: u32 = hint_of(ctx.sframe_poc, cfg.order_hint_bits);
    let ghost a = ref_frame_arr@;
    let ghost hints = pic.ref_order_hint@;
    let n: usize = *tot_ref_frames as usize;
    if n == 0 {
        return false;
    }
    let last: i8 = ref_frame_arr[n - 1];
    let mut m: usize = 0;
    let mut i: usize = 0;
    while i < n
        invariant
            is_split(*split),
            m <= i <= n <= a.len(),
            n <= 255,
            ref_frame_arr@.len() == a.len(),
            hints == pic.ref_order_hint@,
            all_split(*split, a, i as int),
            m == surviving(*split, hints, sframe_poc as int, a, i as int).len(),
            forall|k: int|
                0 <= k < m ==> #[trigger] ref_frame_arr@[k] == surviving(
                    *split,
                    hints,
                    sframe_poc as int,
                    a,
                    i as int,
                )[k],
            forall|k: int| i <= k < a.len() ==> #[trigger] ref_frame_arr@[k] == a[k],
        decreases n - i,
    {
        let t: i8 = ref_frame_arr[i];
        let rf: [i8; 2] = split(t);
        proof {
            assert(call_ensures(*split, (t,), split_of(*split, t)));
            assert(rf@[0] == split_of(*split, t)@[0] && rf@[1] == split_of(*split, t)@[1]);
        }
        if !(hits(&pic.ref_order_hint, sframe_poc, rf[0]) || hits(&pic.ref_order_hint, sframe_poc, rf[1])) {
            ref_frame_arr[m] = t;
            m = m + 1;
        }
        i = i + 1;
    }
    let mut j: usize = m;
    while j < n
        invariant
            m <= j <= n <= a.len(),
            ref_frame_arr@.len() == a.len(),
            last == a[n - 1],
            m == surviving(*split, hints, sframe_poc as int, a, n as int).len(),
            forall|k: int|
                0 <= k < m ==> #[trigger] ref_frame_arr@[k] == surviving(
                    *split,
                    hints,
                    sframe_poc as int,
                    a,
                    n as int,
                )[k],
            forall|k: int| m <= k < j ==> #[trigger] ref_frame_arr@[k] == last,
            forall|k: int| n <= k < a.len() ==> #[trigger] ref_frame_arr@[k] == a[k],
        decreases n - j,
    {
        ref_frame_arr[j] = last;
        j = j + 1;
    }
    *tot_ref_frames = m as u8;
    m < n
}

/// The hint of a slot as written in the header: counted from the last key
/// frame in low delay, and as it is otherwise.
pub open spec fn published(cfg: SFrameConfig, hint: u32, key_poc: u64) -> int {
    if cfg.pred_structure is LowDelay {
        (hint - key_poc) % 0x1_0000_0000
    } else {
        hint as int
    }
}

fn publish(cfg: &SFrameConfig, hint: u32, key_poc: u64) -> (r: u32)
    ensures
        r == published(*cfg, hint, key_poc),
{
    if cfg.pred_structure == PredStructure::LowDelay {
        let d: i128 = hint as i128 - key_poc as i128 + 0x1_0000_0000_0000_0000;
        (d % 0x1_0000_0000) as u32
    } else {
        hint
    }
}

/// Writes the hints of all slots into the picture's header, and then notes
/// the picture's own hint for every slot it is written to.
pub fn update_sframe_ref_order_hint(pic: &mut PicParams, cfg: &SFrameConfig, ctx: &mut PicDecisionCtx)
    requires
        cfg.order_hint_bits < 64,
    ensures
        forall|i: int|
            0 <= i < 8 ==> #[trigger] final(pic).dpb_order_hint@[i] == published(
                *cfg,
                old(ctx).ref_order_hint@[i],
                old(ctx).key_poc,
            ),
        forall|i: int|
            0 <= i < 8 ==> #[trigger] final(ctx).ref_order_hint@[i] == if in_set(
                old(pic).rps.refresh_frame_mask,
                i,
            ) {
                order_hint(old(pic).picture_number as int, cfg.order_hint_bits)
            } else {
                old(ctx).ref_order_hint@[i] as int
            },
        *final(pic) == (PicParams { dpb_order_hint: final(pic).dpb_order_hint, ..*old(pic) }),
        *final(ctx) == (PicDecisionCtx { ref_order_hint: final(ctx).ref_order_hint, ..*old(ctx) }),
{
    let ghost pic0 = *pic;
    let ghost ctx0 = *ctx;
    let cur: u32 = hint_of(pic.picture_number, cfg.order_hint_bits);
    let mut i: usize = 0;
    while i < REF_FRAMES
        invariant
            i <= 8,
            cur == order_hint(pic0.picture_number as int, cfg.order_hint_bits),
            forall|k: int|
                0 <= k < i ==> #[trigger] pic.dpb_order_hint@[k] == published(
                    *cfg,
                    ctx0.ref_order_hint@[k],
                    ctx0.key_poc,
                ),
            forall|k: int|
                0 <= k < 8 ==> #[trigger] ctx.ref_order_hint@[k] == if k < i && in_set(pic0.rps.refresh_frame_mask, k) {
                    cur
                } else {
                    ctx0.ref_order_hint@[k]
                },
            *pic == (PicParams { dpb_order_hint: pic.dpb_order_hint, ..pic0 }),
            *ctx == (PicDecisionCtx { ref_order_hint: ctx.ref_order_hint, ..ctx0 }),
        decreases 8 - i,
    {
        pic.dpb_order_hint[i] = publish(cfg, ctx.ref_order_hint[i], ctx.key_poc);
        if holds(pic.rps.refresh_frame_mask, i) {
            ctx.ref_order_hint[i] = cur;
        }
        i = i + 1;
    }
}

/// Taking references away keeps the order of those that stay, and none that
/// stays is at the switch frame.
pub proof fn survivors_are_not_at_the_switch<F: Fn(i8) -> [i8; 2]>(
    split: F,
    hints: Seq<u32>,
    hint: int,
    s: Seq<i8>,
    n: int,
)
    requires
        0 <= n <= s.len(),
    ensures
        surviving(split, hints, hint, s, n).len() <= n,
        forall|i: int|
            0 <= i < surviving(split, hints, hint, s, n).len() ==> !is_pruned(
                split,
                hints,
                hint,
                #[trigger] surviving(split, hints, hint, s, n)[i],
            ),
        forall|k: int|
            0 <= k < n && !is_pruned(split, hints, hint, #[trigger] s[k]) ==> surviving(
                split,
                hints,
                hint,
                s,
                n,
            ).contains(s[k]),
    decreases n,
{
    if n > 0 {
        survivors_are_not_at_the_switch(split, hints, hint, s, n - 1);
        let before = surviving(split, hints, hint, s, n - 1);
        let after = surviving(split, hints, hint, s, n);
        assert forall|k: int| 0 <= k < n && !is_pruned(split, hints, hint, #[trigger] s[k]) implies after.contains(
            s[k],
        ) by {
            if k < n - 1 {
                assert(before.contains(s[k]));
                let j = choose|j: int| 0 <= j < before.len() && before[j] == s[k];
                assert(after[j] == s[k]);
            } else {
                assert(after[before.len() as int] == s[k]);
            }
        }
    }
}

/// Without a switch frame, no reference is taken away.
pub proof fn no_switch_no_pruning(pic: PicParams, cfg: SFrameConfig, ctx: PicDecisionCtx)
    requires
        ctx.sframe_poc == 0,
    ensures
        !prunes(pic, cfg, ctx),
{
}

} // verus!
