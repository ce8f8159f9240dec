//! Where switch frames fall, what they are quantized with, and how groups are
//! cut to meet them.

use vstd::arithmetic::div_mod::{lemma_fundamental_div_mod, lemma_fundamental_div_mod_converse, lemma_small_mod};
use vstd::arithmetic::power2::{lemma2_to64, lemma_pow2_pos, lemma_pow2_strictly_increases, pow2};
use vstd::prelude::*;

use crate::picstruct::{PicDecisionCtx, PicParams};
use crate::sframe::plan::{first_depth, m64, planned, planned_by_distance, planned_by_schedule, Plan};
use crate::sframe::refs::{order_hint, prunes, published};
use crate::sframe::{
    ahead, dist_after, dist_at, index_from, lowered_groups_fit, qp_at, qp_offset_at, with_qp, SFrameConfig,
    SFramePositions,
};

verus! {

proof fn lemma_multiple(x: int, d: int)
    requires
        0 < d,
        0 <= x,
    ensures
        x % d == 0 <==> exists|k: int| x == #[trigger] (k * d),
{
    lemma_fundamental_div_mod(x, d);
    assert(d * (x / d) == (x / d) * d) by (nonlinear_arith);
    if exists|k: int| x == #[trigger] (k * d) {
        let k = choose|k: int| x == #[trigger] (k * d);
        lemma_fundamental_div_mod_converse(x, d, k, 0);
    }
}

/// In the strict mode a base-layer picture becomes a switch frame exactly where
/// it is a whole number of distances past the last key frame.
pub proof fn strict_switches_are_a_distance_apart(pic: PicParams, cfg: SFrameConfig, ctx: PicDecisionCtx)
    requires
        cfg.mode is StrictBase,
        pic.temporal_layer_index == 0,
        !pic.is_switch_frame,
        cfg.dist > 0,
        ctx.key_poc <= pic.picture_number,
    ensures
        planned(pic, cfg, ctx).switch <==> exists|k: int|
            pic.picture_number == ctx.key_poc + #[trigger] (k * cfg.dist),
{
    let since = pic.picture_number - ctx.key_poc;
    lemma_multiple(since, cfg.dist as int);
    if since % (cfg.dist as int) == 0 {
        let k = choose|k: int| since == #[trigger] (k * cfg.dist);
        assert(pic.picture_number == ctx.key_poc + k * cfg.dist);
    }
}

/// In the nearest mode with references on both sides a base-layer picture
/// becomes a switch frame exactly where its group has reached a whole number
/// of distances past the last key frame: one of the pictures of its group, or
/// itself, is at one.
pub proof fn nearest_switches_follow_a_distance(pic: PicParams, cfg: SFrameConfig, ctx: PicDecisionCtx)
    requires
        cfg.mode is NearestBase,
        cfg.pred_structure is RandomAccess,
        pic.temporal_layer_index == 0,
        !pic.is_switch_frame,
        cfg.dist > 0,
        ctx.key_poc <= pic.picture_number,
    ensures
        planned(pic, cfg, ctx).switch <==> exists|k: int|
            ctx.key_poc + #[trigger] (k * cfg.dist) <= pic.picture_number < ctx.key_poc + k * cfg.dist + ctx.mg_size,
{
    let since = pic.picture_number - ctx.key_poc;
    let d = cfg.dist as int;
    lemma_fundamental_div_mod(since, d);
    let q = since / d;
    assert(d * q == q * d) by (nonlinear_arith);
    if since % d < ctx.mg_size {
        assert(ctx.key_poc + q * cfg.dist <= pic.picture_number < ctx.key_poc + q * cfg.dist + ctx.mg_size);
    }
    if exists|k: int| ctx.key_poc + #[trigger] (k * cfg.dist) <= pic.picture_number < ctx.key_poc + k * cfg.dist + ctx.mg_size {
        let k = choose|k: int|
            ctx.key_poc + #[trigger] (k * cfg.dist) <= pic.picture_number < ctx.key_poc + k * cfg.dist + ctx.mg_size;
        assert(k * d <= q * d) by (nonlinear_arith)
            requires
                k * d <= since,
                since < q * d + d,
                d > 0,
        ;
    }
}

/// In the nearest mode in low delay a switch frame that falls due waits for the
/// next base-layer picture, and is then no longer due.
pub proof fn due_switches_wait_for_the_base_layer(pic: PicParams, cfg: SFrameConfig, ctx: PicDecisionCtx)
    requires
        cfg.mode is NearestBase,
        cfg.pred_structure is LowDelay,
        !pic.is_switch_frame,
        ctx.key_poc <= pic.picture_number,
    ensures
        ({
            let p = planned(pic, cfg, ctx);
            let at = cfg.dist > 0 && (pic.picture_number - ctx.key_poc) % (cfg.dist as int) == 0;
            &&& pic.temporal_layer_index == 0 ==> !p.due && (p.switch <==> ctx.sframe_due || at)
            &&& pic.temporal_layer_index != 0 ==> !p.switch && (p.due <==> ctx.sframe_due || at)
        }),
{
}

/// With a schedule, the group after a base-layer picture ends at the next
/// scheduled picture or before it, unless it is a single picture, and is no
/// smaller than that takes.
pub proof fn scheduled_switches_end_groups(plan: Plan, cfg: SFrameConfig, n: int)
    requires
        cfg.positions.positions is Some,
        0 <= plan.hier,
    ensures
        ({
            let at = (n + ahead(cfg)) % m64();
            let next = if dist_at(cfg.positions, at) == 0 {
                dist_after(cfg.positions, at)
            } else {
                dist_at(cfg.positions, at)
            };
            let full = if dist_at(cfg.positions, at) == 0 {
                cfg.hierarchical_levels as int
            } else {
                plan.hier
            };
            let p = planned_by_schedule(plan, cfg, n);
            &&& 0 <= p.hier <= full
            &&& next > 0 && p.hier > 0 ==> pow2(p.hier as nat) <= next
            &&& next <= 0 || next >= pow2(full as nat) ==> p.hier == full
            &&& next > 0 && p.hier < full ==> next < pow2((p.hier + 1) as nat)
            &&& dist_at(cfg.positions, at) == 0 ==> (if ahead(cfg) == 0 {
                p.switch
            } else {
                p.next_s
            })
            &&& dist_at(cfg.positions, at) != 0 ==> p.switch == plan.switch && p.next_s == plan.next_s
        }),
{
    let at = (n + ahead(cfg)) % m64();
    let d = dist_at(cfg.positions, at);
    let full = if d == 0 {
        cfg.hierarchical_levels as int
    } else {
        plan.hier
    };
    let next = if d == 0 {
        dist_after(cfg.positions, at)
    } else {
        d
    };
    lowered_groups_fit(full, next);
}

/// Without a schedule, a base-layer picture at a whole number of distances past
/// the key frame is a switch frame; and the group after it ends at the last
/// such place that it would have passed, or before that, unless it is a single
/// picture.
pub proof fn distances_end_groups(plan: Plan, cfg: SFrameConfig, since: int)
    requires
        cfg.mode is FlexibleBase,
        cfg.dist > 0,
        0 <= plan.hier <= 30,
        cfg.hierarchical_levels <= 30,
        0 <= since < 0x4000_0000_0000_0000,
    ensures
        ({
            let p = planned_by_distance(plan, cfg, since);
            let d = cfg.dist as int;
            let full = if since % d == 0 {
                cfg.hierarchical_levels as int
            } else {
                plan.hier
            };
            let size = pow2(full as nat) as int;
            let last = size - (since + size) % d;
            &&& (since + last) % d == 0
            &&& 0 <= p.hier <= full
            &&& last > 0 && p.hier > 0 ==> pow2(p.hier as nat) <= last
            &&& last <= 0 || last == size ==> p.hier == full
            &&& since % d == 0 ==> p.switch
            &&& since % d != 0 ==> p.switch == plan.switch
            &&& p.next_s == plan.next_s
        }),
{
    let d = cfg.dist as int;
    let full = if since % d == 0 {
        cfg.hierarchical_levels as int
    } else {
        plan.hier
    };
    lemma2_to64();
    lemma_pow2_pos(full as nat);
    if full < 30 {
        lemma_pow2_strictly_increases(full as nat, 30);
    }
    let size = pow2(full as nat) as int;
    lemma_small_mod(since as nat, m64() as nat);
    lemma_small_mod((since + size) as nat, m64() as nat);
    let gap = (since + size) % d;
    lemma_fundamental_div_mod(since + size, d);
    lemma_fundamental_div_mod_converse(since + size - gap, d, (since + size) / d, 0);
    lowered_groups_fit(full, size - gap);
}

/// The first group after a key frame ends at the first switch frame or before
/// it: the one at the distance, or the next scheduled one.
pub proof fn first_groups_end_at_the_first_switch(pic: PicParams, cfg: SFrameConfig)
    requires
        cfg.hierarchical_levels <= 30,
    ensures
        ({
            let h = first_depth(pic, cfg);
            let at = (pic.picture_number + ahead(cfg)) % m64();
            let first = if cfg.positions.positions is None {
                cfg.dist as int
            } else if dist_at(cfg.positions, at) != 0 {
                dist_at(cfg.positions, at)
            } else {
                dist_after(cfg.positions, at)
            };
            &&& 0 <= h <= cfg.hierarchical_levels
            &&& first > 0 && h > 0 ==> pow2(h as nat) <= first
            &&& first >= pow2(cfg.hierarchical_levels as nat) ==> h == cfg.hierarchical_levels
            &&& first > 0 && h < cfg.hierarchical_levels ==> first < pow2((h + 1) as nat)
        }),
{
    let at = (pic.picture_number + ahead(cfg)) % m64();
    let first = if cfg.positions.positions is None {
        cfg.dist as int
    } else if dist_at(cfg.positions, at) != 0 {
        dist_at(cfg.positions, at)
    } else {
        dist_after(cfg.positions, at)
    };
    lowered_groups_fit(cfg.hierarchical_levels as int, first);
}

proof fn lemma_index(s: Seq<u64>, n: u64, i: int)
    requires
        0 <= i <= s.len(),
    ensures
        i <= index_from(s, n, i) <= s.len(),
        index_from(s, n, i) < s.len() ==> s[index_from(s, n, i)] == n,
        forall|k: int| i <= k < index_from(s, n, i) ==> #[trigger] s[k] != n,
    decreases s.len() - i,
{
    if i < s.len() && s[i] != n {
        lemma_index(s, n, i + 1);
    }
}

/// A scheduled picture has the quantizer and the offset that stand beside it in
/// the schedule, one that is not scheduled has none; without a schedule the
/// first ones hold for every picture.
pub proof fn quantizers_stand_beside_the_schedule(posi: SFramePositions, n: u64, k: int)
    requires
        posi.qps is Some,
        posi.qp_offsets is Some,
        0 <= k < (posi.qps->0)@.len(),
        k < (posi.qp_offsets->0)@.len(),
    ensures
        posi.positions is None && k == 0 ==> qp_at(posi, n) == (posi.qps->0)@[k] && qp_offset_at(posi, n) == (
        posi.qp_offsets->0)@[k],
        posi.positions is Some && k < (posi.positions->0)@.len() && (posi.positions->0)@[k] == n && (forall|i: int|
            0 <= i < k ==> #[trigger] (posi.positions->0)@[i] != n) ==> qp_at(posi, n) == (posi.qps->0)@[k]
            && qp_offset_at(posi, n) == (posi.qp_offsets->0)@[k],
        posi.positions is Some && !(posi.positions->0)@.contains(n) ==> qp_at(posi, n) == 0 && qp_offset_at(posi, n) == 0,
{
    if posi.positions is Some {
        let s = (posi.positions->0)@;
        lemma_index(s, n, 0);
        let i = index_from(s, n, 0);
        if i < s.len() {
            assert(s.contains(n));
        }
        if k < s.len() && s[k] == n && (forall|j: int| 0 <= j < k ==> #[trigger] s[j] != n) {
            assert(i == k) by {
                if i > k {
                    assert(s[k] != n);
                }
            }
        }
    }
}

/// A quantizer that is asked for is kept to the allowed range, and a picture
/// for which none is asked keeps its own. What the configuration asks for goes
/// before what the schedule does.
pub proof fn quantizers_are_kept_in_range(pic: PicParams, cfg: SFrameConfig)
    requires
        cfg.min_qp_allowed <= cfg.max_qp_allowed <= 127,
        cfg.qp <= 127,
    ensures
        ({
            let r = with_qp(pic, cfg);
            let number = if cfg.mode is DecPosiBase {
                pic.decode_order
            } else {
                pic.picture_number
            };
            &&& cfg.qp > 0 ==> r.qp_on_the_fly && cfg.min_qp_allowed <= r.picture_qp <= cfg.max_qp_allowed
            &&& cfg.qp > 0 && cfg.min_qp_allowed <= cfg.qp <= cfg.max_qp_allowed ==> r.picture_qp == cfg.qp
            &&& cfg.qp > 0 && cfg.qp < cfg.min_qp_allowed ==> r.picture_qp == cfg.min_qp_allowed
            &&& cfg.qp > cfg.max_qp_allowed ==> r.picture_qp == cfg.max_qp_allowed
            &&& cfg.qp == 0 && qp_at(cfg.positions, number) == 0 ==> r.picture_qp == pic.picture_qp && r.qp_on_the_fly
                == pic.qp_on_the_fly
            &&& cfg.qp == 0 && qp_at(cfg.positions, number) > 0 ==> r.qp_on_the_fly && with_qp(
                pic,
                (SFrameConfig { qp: qp_at(cfg.positions, number) as u8, ..cfg }),
            ) == r
            &&& cfg.qp_offset != 0 ==> r.sframe_qp_offset == cfg.qp_offset
            &&& cfg.qp_offset == 0 && qp_offset_at(cfg.positions, number) != 0 ==> r.sframe_qp_offset == qp_offset_at(
                cfg.positions,
                number,
            )
            &&& cfg.qp_offset == 0 && qp_offset_at(cfg.positions, number) == 0 ==> r.sframe_qp_offset
                == pic.sframe_qp_offset
        }),
{
    let number = if cfg.mode is DecPosiBase {
        pic.decode_order
    } else {
        pic.picture_number
    };
    assert(0 <= qp_at(cfg.positions, number) <= 255);
    assert(-128 <= qp_offset_at(cfg.positions, number) <= 127);
}

/// An order hint is the picture number but for whole turns of its bits.
pub proof fn hints_are_numbers_in_few_bits(number: int, bits: u32)
    requires
        0 <= number,
        bits <= 32,
    ensures
        0 <= order_hint(number, bits) < pow2(bits as nat),
        exists|k: int| number == order_hint(number, bits) + #[trigger] (k * pow2(bits as nat)),
{
    let m = pow2(bits as nat) as int;
    lemma_pow2_pos(bits as nat);
    lemma2_to64();
    if bits < 32 {
        lemma_pow2_strictly_increases(bits as nat, 32);
    }
    lemma_fundamental_div_mod(number, m);
    let h = number % m;
    lemma_small_mod(h as nat, 0x1_0000_0000);
    assert(m * (number / m) == (number / m) * m) by (nonlinear_arith);
    assert(number == order_hint(number, bits) + (number / m) * pow2(bits as nat));
}

/// A header counts hints from the last key frame in low delay, in 32 bits, and
/// gives them as they are otherwise.
pub proof fn headers_count_from_the_key_frame(cfg: SFrameConfig, hint: u32, key: u64)
    ensures
        cfg.pred_structure is RandomAccess ==> published(cfg, hint, key) == hint,
        cfg.pred_structure is LowDelay ==> 0 <= published(cfg, hint, key) < 0x1_0000_0000 && (published(cfg, hint, key)
            + key - hint) % 0x1_0000_0000 == 0,
{
}

/// References are pruned only for pictures shown before a switch frame.
pub proof fn only_pictures_before_the_switch_are_pruned(pic: PicParams, cfg: SFrameConfig, ctx: PicDecisionCtx)
    ensures
        pic.picture_number >= ctx.sframe_poc ==> !prunes(pic, cfg, ctx),
        pic.picture_number < ctx.sframe_poc ==> prunes(pic, cfg, ctx) == cfg.mfmv_enabled,
{
}

} // verus!
