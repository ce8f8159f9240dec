//! The choice of switch frames, and the reshaping of groups around them.

use vstd::arithmetic::div_mod::lemma_small_mod;
use vstd::arithmetic::power2::{lemma2_to64, lemma_pow2_pos, lemma_pow2_strictly_increases, pow2};
use vstd::prelude::*;

use crate::arith::pow2_i64;
use crate::picstruct::{PicDecisionCtx, PicParams, PredStructure};
use crate::sframe::{
    ahead, dist_after, dist_at, dist_to_s, downgrade_hier_lvls, lowered, lowered_groups_fit, position_offset,
    qp_range_ok, setup_sframe_qp, wanted_qp, with_qp, SFrameConfig, SFrameMode,
};

verus! {

/// What the choice leaves behind: whether the picture is a switch frame, and
/// the state for the pictures after it.
pub struct Plan {
    pub switch: bool,
    pub due: bool,
    pub next_s: bool,
    pub hier: int,
}

/// Number of 64-bit values.
pub open spec fn m64() -> int {
    0x1_0000_0000_0000_0000
}

/// The plan after a scheduled position has been met, or not: a switch frame,
/// now or at the next base-layer frame, restarts the hierarchy at full
/// depth.
pub open spec fn met(plan: Plan, hit: bool, cfg: SFrameConfig) -> Plan {
    if hit {
        Plan {
            switch: plan.switch || ahead(cfg) == 0,
            next_s: plan.next_s || ahead(cfg) != 0,
            hier: cfg.hierarchical_levels as int,
            ..plan
        }
    } else {
        plan
    }
}

/// The plan with the next group shrunk to a distance that falls inside it.
pub open spec fn shrunk(plan: Plan, dist: int) -> Plan {
    if 0 < dist < pow2(plan.hier as nat) {
        Plan { hier: lowered(plan.hier, dist), ..plan }
    } else {
        plan
    }
}

/// The plan at a base-layer frame where a schedule is given: the entry the
/// frame is at decides about it, the one after it about the next group.
pub open spec fn planned_by_schedule(plan: Plan, cfg: SFrameConfig, n: int) -> Plan {
    let at = (n + ahead(cfg)) % m64();
    let d = dist_at(cfg.positions, at);
    if d == 0 {
        shrunk(met(plan, true, cfg), dist_after(cfg.positions, at))
    } else {
        shrunk(plan, d)
    }
}

/// The next group ends at or before the next key frame, where that matters.
pub open spec fn ends_before_key(plan: Plan, cfg: SFrameConfig, since: int) -> bool {
    cfg.mode !is DecPosiBase || cfg.intra_period_length <= 0 || since + pow2(plan.hier as nat)
        <= cfg.intra_period_length
}

/// The plan at a base-layer frame where switch frames come at a distance.
pub open spec fn planned_by_distance(plan: Plan, cfg: SFrameConfig, since: int) -> Plan {
    let hit = cfg.dist > 0 && (since + ahead(cfg)) % m64() % (cfg.dist as int) == 0;
    let p = met(plan, hit, cfg);
    let size = pow2(p.hier as nat) as int;
    if ends_before_key(p, cfg, since) && cfg.dist > 0 {
        let gap = (since + ahead(cfg) + size) % m64() % (cfg.dist as int);
        if gap != 0 {
            shrunk(p, size - gap)
        } else {
            p
        }
    } else {
        p
    }
}

/// The plan at a base-layer frame of a mode that reshapes groups.
pub open spec fn planned_flexibly(plan: Plan, cfg: SFrameConfig, n: int, since: int) -> Plan {
    let p = Plan { switch: plan.switch || plan.next_s, next_s: false, ..plan };
    if cfg.positions.positions is Some {
        planned_by_schedule(p, cfg, n)
    } else {
        planned_by_distance(p, cfg, since)
    }
}

/// The plan at a picture.
pub open spec fn planned(pic: PicParams, cfg: SFrameConfig, ctx: PicDecisionCtx) -> Plan {
    let base = pic.temporal_layer_index == 0;
    let since = pic.picture_number - ctx.key_poc;
    let plan = Plan {
        switch: pic.is_switch_frame,
        due: ctx.sframe_due,
        next_s: ctx.next_arf_is_s,
        hier: ctx.sframe_hier_lvls as int,
    };
    match cfg.mode {
        SFrameMode::StrictBase => Plan {
            switch: plan.switch || (base && cfg.dist > 0 && since % (cfg.dist as int) == 0),
            ..plan
        },
        SFrameMode::NearestBase => {
            if cfg.pred_structure is RandomAccess {
                Plan {
                    switch: plan.switch || (base && cfg.dist > 0 && since % (cfg.dist as int) < ctx.mg_size),
                    ..plan
                }
            } else {
                let due = plan.due || (cfg.dist > 0 && since % (cfg.dist as int) == 0);
                Plan { switch: plan.switch || (due && base), due: due && !base, ..plan }
            }
        },
        _ => if base {
            planned_flexibly(plan, cfg, pic.picture_number as int, since)
        } else {
            plan
        },
    }
}

/// The hierarchy depths are ones a group size can be computed for.
pub open spec fn depths_ok(cfg: SFrameConfig, hier: int) -> bool {
    cfg.hierarchical_levels <= 30 && 0 <= hier <= 30
}

proof fn lemma_group_size(hier: int)
    requires
        0 <= hier <= 30,
    ensures
        1 <= pow2(hier as nat) <= 0x4000_0000,
{
    lemma2_to64();
    lemma_pow2_pos(hier as nat);
    if hier < 30 {
        lemma_pow2_strictly_increases(hier as nat, 30);
    }
}

fn wrapping_sum(a: u64, b: u64) -> (r: u64)
    ensures
        r == (a + b) % m64(),
{
    let s: u128 = a as u128 + b as u128;
    (s % 0x1_0000_0000_0000_0000) as u64
}

fn shrink(hier: i32, dist: i64) -> (r: i32)
    requires
        0 <= hier <= 30,
    ensures
        r == if 0 < dist < pow2(hier as nat) {
            lowered(hier as int, dist as int)
        } else {
            hier as int
        },
        0 <= r <= hier,
{
    proof {
        lemma_group_size(hier as int);
    }
    if dist > 0 && dist < pow2_i64(hier as u32) {
        downgrade_hier_lvls(hier, dist as i32)
    } else {
        hier
    }
}

/// The distance from the last key frame is held against that of the next one.
pub open spec fn weighs_key_distance(cfg: SFrameConfig) -> bool {
    cfg.positions.positions is None && cfg.mode is DecPosiBase && cfg.intra_period_length > 0
}

fn set_sframe_type_flexible(pic: &mut PicParams, cfg: &SFrameConfig, ctx: &mut PicDecisionCtx, frames_since_key: u64)
    requires
        cfg.positions.wf(),
        depths_ok(*cfg, old(ctx).sframe_hier_lvls as int),
        weighs_key_distance(*cfg) ==> frames_since_key + 0x4000_0000 <= u64::MAX,
    ensures
        ({
            let p = planned_flexibly(
                Plan {
                    switch: old(pic).is_switch_frame,
                    due: old(ctx).sframe_due,
                    next_s: old(ctx).next_arf_is_s,
                    hier: old(ctx).sframe_hier_lvls as int,
                },
                *cfg,
                old(pic).picture_number as int,
                frames_since_key as int,
            );
            &&& *final(pic) == (PicParams { is_switch_frame: p.switch, ..*old(pic) })
            &&& *final(ctx) == (PicDecisionCtx {
                next_arf_is_s: p.next_s,
                sframe_hier_lvls: p.hier as i32,
                ..*old(ctx)
            })
            &&& 0 <= p.hier <= 30
        }),
{
    let offset: i32 = position_offset(cfg);
    if ctx.next_arf_is_s {
        pic.is_switch_frame = true;
        ctx.next_arf_is_s = false;
    }
    if cfg.positions.positions.is_some() {
        let (d, d_next): (i32, i32) = dist_to_s(&cfg.positions, wrapping_sum(pic.picture_number, offset as u64));
        if d == 0 {
            if offset != 0 {
                ctx.next_arf_is_s = true;
            } else {
                pic.is_switch_frame = true;
            }
            ctx.sframe_hier_lvls = shrink(cfg.hierarchical_levels as i32, d_next as i64);
        } else {
            ctx.sframe_hier_lvls = shrink(ctx.sframe_hier_lvls, d as i64);
        }
    } else {
        if cfg.dist > 0 && wrapping_sum(frames_since_key, offset as u64) % (cfg.dist as u64) == 0 {
            if offset != 0 {
                ctx.next_arf_is_s = true;
            } else {
                pic.is_switch_frame = true;
            }
            ctx.sframe_hier_lvls = cfg.hierarchical_levels as i32;
        }
        proof {
            lemma_group_size(ctx.sframe_hier_lvls as int);
        }
        let size: i64 = pow2_i64(ctx.sframe_hier_lvls as u32);
        let before_next_key: bool = cfg.mode != SFrameMode::DecPosiBase || cfg.intra_period_length <= 0
            || frames_since_key + size as u64 <= cfg.intra_period_length as u64;
        if before_next_key && cfg.dist > 0 {
            let sum: u64 = wrapping_sum(wrapping_sum(frames_since_key, offset as u64), size as u64);
            proof {
                assert(((frames_since_key + offset) % m64() + size) % m64() == (frames_since_key + offset + size) % m64());
            }
            let gap: u64 = sum % (cfg.dist as u64);
            if gap != 0 {
                ctx.sframe_hier_lvls = shrink(ctx.sframe_hier_lvls, size - gap as i64);
            }
        }
    }
}

/// Decides whether a picture becomes a switch frame and sets up its quantizer
/// if it does. In the modes that reshape groups it also shrinks the next
/// group so that the next switch frame falls on a base-layer picture.
pub fn set_sframe_type(pic: &mut PicParams, cfg: &SFrameConfig, ctx: &mut PicDecisionCtx)
    requires
        old(ctx).key_poc <= old(pic).picture_number,
        cfg.mode.reshapes() && old(pic).temporal_layer_index == 0 ==> {
            &&& cfg.positions.wf()
            &&& depths_ok(*cfg, old(ctx).sframe_hier_lvls as int)
            &&& weighs_key_distance(*cfg) ==> old(pic).picture_number - old(ctx).key_poc + 0x4000_0000 <= u64::MAX
        },
        planned(*old(pic), *cfg, *old(ctx)).switch && wanted_qp(*old(pic), *cfg) > 0 ==> qp_range_ok(*cfg),
    ensures
        ({
            let p = planned(*old(pic), *cfg, *old(ctx));
            let marked = PicParams { is_switch_frame: p.switch, ..*old(pic) };
            &&& *final(pic) == (PicParams {
                sframe_ref_pruned: false,
                ..(if p.switch {
                    with_qp(marked, *cfg)
                } else {
                    marked
                })
            })
            &&& *final(ctx) == (PicDecisionCtx {
                sframe_due: p.due,
                next_arf_is_s: p.next_s,
                sframe_hier_lvls: p.hier as i32,
                sframe_last_arf: if cfg.mode.reshapes() && old(pic).temporal_layer_index == 0 {
                    (old(pic).picture_number - old(ctx).key_poc) as u64
                } else {
                    old(ctx).sframe_last_arf
                },
                ..*old(ctx)
            })
        }),
{
    let is_arf: bool = pic.temporal_layer_index == 0;
    let frames_since_key: u64 = pic.picture_number - ctx.key_poc;
    match cfg.mode {
        SFrameMode::StrictBase => {
            if is_arf && cfg.dist > 0 && frames_since_key % (cfg.dist as u64) == 0 {
                pic.is_switch_frame = true;
            }
        },
        SFrameMode::NearestBase => {
            if cfg.pred_structure == PredStructure::RandomAccess {
                if is_arf && cfg.dist > 0 && frames_since_key % (cfg.dist as u64) < ctx.mg_size as u64 {
                    pic.is_switch_frame = true;
                }
            } else {
                if cfg.dist > 0 && frames_since_key % (cfg.dist as u64) == 0 {
                    ctx.sframe_due = true;
                }
                if ctx.sframe_due && is_arf {
                    pic.is_switch_frame = true;
                    ctx.sframe_due = false;
                }
            }
        },
        _ => {
            if is_arf {
                set_sframe_type_flexible(pic, cfg, ctx, frames_since_key);
                ctx.sframe_last_arf = frames_since_key;
            }
        },
    }
    if pic.is_switch_frame {
        setup_sframe_qp(pic, cfg);
    }
    pic.sframe_ref_pruned = false;
}

/// Distance from a key frame to the switch frame that the first group after
/// it may hold, if there is one.
pub open spec fn first_distance(pic: PicParams, cfg: SFrameConfig) -> Option<int> {
    let at = (pic.picture_number + ahead(cfg)) % m64();
    let d = dist_at(cfg.positions, at);
    let next = dist_after(cfg.positions, at);
    if cfg.positions.positions is None {
        Some(cfg.dist as int)
    } else if d > 0 {
        Some(d)
    } else if d == 0 && next > 0 {
        Some(next)
    } else {
        None
    }
}

/// Depth of the first group after a key frame.
pub open spec fn first_depth(pic: PicParams, cfg: SFrameConfig) -> int {
    let hier = cfg.hierarchical_levels as int;
    let d = first_distance(pic, cfg);
    if d is Some && d->0 < pow2(hier as nat) {
        lowered(hier, d->0)
    } else {
        hier
    }
}

/// Restarts the hierarchy at a key frame and shrinks the first group after it
/// to a switch frame inside it.
pub fn decide_sframe_mg(pic: &PicParams, cfg: &SFrameConfig, ctx: &mut PicDecisionCtx)
    requires
        cfg.positions.wf(),
        cfg.hierarchical_levels <= 30,
    ensures
        *final(ctx) == (PicDecisionCtx {
            next_arf_is_s: false,
            sframe_hier_lvls: first_depth(*pic, *cfg) as i32,
            ..*old(ctx)
        }),
        0 <= first_depth(*pic, *cfg) <= cfg.hierarchical_levels,
{
    let offset: i32 = position_offset(cfg);
    ctx.next_arf_is_s = false;
    ctx.sframe_hier_lvls = cfg.hierarchical_levels as i32;
    let mut sframe_dist: i32 = cfg.dist;
    if cfg.positions.positions.is_some() {
        let (d, d_next): (i32, i32) = dist_to_s(&cfg.positions, wrapping_sum(pic.picture_number, offset as u64));
        if d > 0 {
            sframe_dist = d;
        } else if d == 0 && d_next > 0 {
            sframe_dist = d_next;
        } else {
            return;
        }
    }
    proof {
        lemma_group_size(ctx.sframe_hier_lvls as int);
    }
    if (sframe_dist as i64) < pow2_i64(ctx.sframe_hier_lvls as u32) {
        ctx.sframe_hier_lvls = downgrade_hier_lvls(ctx.sframe_hier_lvls, sframe_dist);
    }
}

/// Only base-layer pictures become switch frames.
pub proof fn only_the_base_layer_switches(pic: PicParams, cfg: SFrameConfig, ctx: PicDecisionCtx)
    requires
        pic.temporal_layer_index != 0,
    ensures
        planned(pic, cfg, ctx).switch == pic.is_switch_frame,
{
}

/// Where neither a distance nor a schedule is given, and nothing is pending,
/// no picture becomes a switch frame.
pub proof fn no_schedule_no_switch(pic: PicParams, cfg: SFrameConfig, ctx: PicDecisionCtx)
    requires
        cfg.dist <= 0,
        cfg.positions.positions is None,
        !ctx.sframe_due,
        !ctx.next_arf_is_s,
    ensures
        planned(pic, cfg, ctx).switch == pic.is_switch_frame,
        planned(pic, cfg, ctx).hier == ctx.sframe_hier_lvls,
        !planned(pic, cfg, ctx).due,
        !planned(pic, cfg, ctx).next_s,
{
}

/// The depth of the next group never exceeds the configured one.
pub proof fn depth_stays_below_the_configured_one(pic: PicParams, cfg: SFrameConfig, ctx: PicDecisionCtx)
    requires
        0 <= ctx.sframe_hier_lvls <= cfg.hierarchical_levels,
    ensures
        0 <= planned(pic, cfg, ctx).hier <= cfg.hierarchical_levels,
{
    let since = pic.picture_number - ctx.key_poc;
    let hier = ctx.sframe_hier_lvls as int;
    let full = cfg.hierarchical_levels as int;
    let at = (pic.picture_number + ahead(cfg)) % m64();
    lowered_groups_fit(hier, dist_at(cfg.positions, at));
    lowered_groups_fit(full, dist_after(cfg.positions, at));
    let size0 = pow2(hier as nat) as int;
    let size1 = pow2(full as nat) as int;
    lowered_groups_fit(hier, size0 - (since + ahead(cfg) + size0) % m64() % (cfg.dist as int));
    lowered_groups_fit(full, size1 - (since + ahead(cfg) + size1) % m64() % (cfg.dist as int));
}

/// In a mode that reshapes groups by display order, a base-layer picture that
/// is scheduled becomes a switch frame.
pub proof fn scheduled_base_pictures_switch(pic: PicParams, cfg: SFrameConfig, ctx: PicDecisionCtx)
    requires
        cfg.mode is FlexibleBase,
        pic.temporal_layer_index == 0,
        cfg.positions.positions is Some,
        dist_at(cfg.positions, pic.picture_number as int) == 0,
    ensures
        planned(pic, cfg, ctx).switch,
{
    lemma_small_mod(pic.picture_number as nat, m64() as nat);
}

} // verus!
