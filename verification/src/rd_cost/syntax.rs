//! What a candidate pays for: every element that is coded for it is priced, at
//! its own context, and nothing else is.

use vstd::prelude::*;

use crate::arith::abs_int;
use crate::rd_cost::inter_cost::{
    compound_bits, drl_bits, ifs_bits, inter_bits, interintra_bits, is_fast_cost, light_bits, light_mv_total,
    mode_bits, motion_mode_bits, switchable_bits, uses_wedge, FastCost, InterBlock, InterCandidate, InterFacBits,
    InterFrame, SIZE_GROUP_LOOKUP,
};
use crate::rd_cost::intra_cost::{
    filter_bits, intra_chroma_bits, intra_luma_bits, palette_bits, uv_bits, IntraBlock, IntraCandidate, IntraFacBits,
};
use crate::types::{BlockSize, PredictionMode, TransformationType};

verus! {

/// A plain intra candidate, with no palette or filter on offer, pays for its
/// mode, and a directional mode of a block of at least 8x8 for its angle. In
/// an intra-only slice the mode is priced by its neighbours, outside one by
/// its size, and there it also says that it is intra, and where skip mode is
/// on offer that it is not in it. Where block copy is on offer it says that
/// it is not one.
pub proof fn plain_intra_pays_for_mode_and_angle(b: IntraBlock, c: IntraCandidate, t: IntraFacBits)
    requires
        !(b.allow_intrabc && c.use_intrabc),
        !b.allow_palette,
        b.filter_intra_level == 0,
        c.mode < 13,
    ensures
        ({
            let angle: int = if b.bsize.index() >= 3 && 1 <= c.mode <= 8 {
                t.angle_delta[c.mode - 1][c.angle_delta_y + 3] as int
            } else {
                0
            };
            let mode: int = if b.is_key_slice {
                t.y_mode[b.intra_luma_top_ctx as int][b.intra_luma_left_ctx as int][c.mode as int] as int
            } else {
                t.mb_mode[SIZE_GROUP_LOOKUP[b.bsize.index()] as int][c.mode as int] + t.intra_inter[b.is_inter_ctx as int][0]
            };
            let skip: int = if !b.is_key_slice && b.skip_mode_flag && b.bsize.wide_spec() >= 8 && b.bsize.high_spec() >= 8 {
                t.skip_mode[b.skip_mode_ctx as int][0] as int
            } else {
                0
            };
            let no_copy: int = if b.allow_intrabc {
                t.intrabc[0] as int
            } else {
                0
            };
            intra_luma_bits(b, c, t) == (mode + angle + skip + no_copy) % 0x1_0000_0000
        }),
{
}

/// A flat candidate pays for saying whether it has a palette, and for the
/// palette itself where it has one; and where filters are on offer, that is
/// for blocks up to 32x32 without a palette, whether it has one, and which.
pub proof fn flat_intra_pays_for_palette_and_filter(b: IntraBlock, c: IntraCandidate, t: IntraFacBits)
    requires
        b.allow_palette,
        c.mode == 0,
    ensures
        ({
            let colours: int = if c.palette is Some {
                c.palette->0.y as int
            } else {
                0
            };
            let row = t.palette_ymode[b.palette_bsize_ctx as int][b.palette_mode_ctx as int];
            let filters = b.filter_intra_level != 0 && b.bsize.wide_spec() <= 32 && b.bsize.high_spec() <= 32;
            &&& colours > 0 ==> palette_bits(b, c, t) == row[1] + c.palette_mode_cost && filter_bits(b, c, t) == 0
            &&& colours == 0 ==> palette_bits(b, c, t) == row[0]
            &&& colours == 0 && filters && c.filter_intra_mode == 5 ==> filter_bits(b, c, t)
                == t.filter_intra[b.bsize.index()][0]
            &&& colours == 0 && filters && c.filter_intra_mode < 5 ==> filter_bits(b, c, t)
                == t.filter_intra[b.bsize.index()][1] + t.filter_intra_mode[c.filter_intra_mode as int]
            &&& !filters ==> filter_bits(b, c, t) == 0
        }),
{
}

/// What a candidate pays for its luma is the sum of its parts: a palette and a
/// filter come on top of the mode.
pub proof fn palette_and_filter_come_on_top(b: IntraBlock, c: IntraCandidate, t: IntraFacBits)
    requires
        !(b.allow_intrabc && c.use_intrabc),
    ensures
        ({
            let plain = IntraBlock { allow_palette: false, filter_intra_level: 0, ..b };
            (intra_luma_bits(b, c, t) - intra_luma_bits(plain, c, t) - palette_bits(b, c, t) - filter_bits(b, c, t))
                % 0x1_0000_0000 == 0
        }),
{
    let plain = IntraBlock { allow_palette: false, filter_intra_level: 0, ..b };
    let x = crate::rd_cost::intra_cost::intra_header_bits(b, t) + crate::rd_cost::intra_cost::y_mode_bits(b, c, t) + if b.allow_intrabc {
        t.intrabc[0] as int
    } else {
        0
    };
    assert(crate::rd_cost::intra_cost::intra_header_bits(plain, t) == crate::rd_cost::intra_cost::intra_header_bits(b, t));
    assert(crate::rd_cost::intra_cost::y_mode_bits(plain, c, t) == crate::rd_cost::intra_cost::y_mode_bits(b, c, t));
    let y = palette_bits(b, c, t) + filter_bits(b, c, t);
    assert(intra_luma_bits(b, c, t) == (x + y) % 0x1_0000_0000);
    assert(intra_luma_bits(plain, c, t) == x % 0x1_0000_0000);
}

/// A block that codes chroma pays for its chroma mode, one that does not, or
/// that is a copy, pays nothing. Where chroma from luma is not yet known it is
/// priced as flat.
pub proof fn chroma_is_paid_where_it_is_coded(b: IntraBlock, c: IntraCandidate, t: IntraFacBits)
    ensures
        !b.has_uv || (b.allow_intrabc && c.use_intrabc) ==> intra_chroma_bits(b, c, t) == 0,
        b.has_uv && !(b.allow_intrabc && c.use_intrabc) && !b.allow_palette ==> ({
            let mode: int = if c.uv_mode == 13 {
                0
            } else {
                c.uv_mode as int
            };
            let from_luma: int = if b.bsize.wide_spec() <= 32 && b.bsize.high_spec() <= 32 {
                1
            } else {
                0
            };
            intra_chroma_bits(b, c, t) == t.intra_uv_mode[from_luma][c.mode as int][mode] + if b.bsize.index() >= 3 && 1
                <= mode <= 8 {
                t.angle_delta[mode - 1][c.angle_delta_uv + 3] as int
            } else {
                0
            }
        }),
        uv_bits(b, c, true, t) == if c.uv_mode == 13 {
            t.intra_uv_mode[if b.bsize.wide_spec() <= 32 && b.bsize.high_spec() <= 32 {
                1int
            } else {
                0
            }][c.mode as int][13] + t.cfl_alpha[c.cfl_alpha_signs as int][0][c.cfl_alpha_idx as int / 16]
                + t.cfl_alpha[c.cfl_alpha_signs as int][1][c.cfl_alpha_idx as int % 16]
        } else {
            uv_bits(b, c, false, t)
        },
{
}

/// A copied block pays for its vector and for saying that it is a copy.
pub proof fn copies_pay_for_their_vector(b: IntraBlock, c: IntraCandidate, t: IntraFacBits)
    requires
        b.allow_intrabc,
        c.use_intrabc,
    ensures
        intra_luma_bits(b, c, t) == c.dv_bits + t.intrabc[1],
{
}

/// The mode of a single reference is told by up to three flags: whether its
/// vector is new, whether it is global, whether it is the nearest; each asked
/// only where the ones before it said no. Two references have one symbol.
pub proof fn modes_are_told_by_flags(ctx: int, t: InterFacBits)
    requires
        0 <= ctx,
    ensures
        mode_bits(PredictionMode::NewMv, ctx, t) == t.new_mv_mode[ctx % 8][0],
        mode_bits(PredictionMode::GlobalMv, ctx, t) == t.new_mv_mode[ctx % 8][1] + t.zero_mv_mode[(ctx / 8) % 2][0],
        mode_bits(PredictionMode::NearestMv, ctx, t) == t.new_mv_mode[ctx % 8][1] + t.zero_mv_mode[(ctx / 8) % 2][1]
            + t.ref_mv_mode[(ctx / 16) % 16][0],
        mode_bits(PredictionMode::NearMv, ctx, t) == t.new_mv_mode[ctx % 8][1] + t.zero_mv_mode[(ctx / 8) % 2][1]
            + t.ref_mv_mode[(ctx / 16) % 16][1],
        mode_bits(PredictionMode::NearestNearestMv, ctx, t) == t.inter_compound_mode[ctx][0],
        mode_bits(PredictionMode::NearNearMv, ctx, t) == t.inter_compound_mode[ctx][1],
        mode_bits(PredictionMode::NearestNewMv, ctx, t) == t.inter_compound_mode[ctx][2],
        mode_bits(PredictionMode::NewNearestMv, ctx, t) == t.inter_compound_mode[ctx][3],
        mode_bits(PredictionMode::NearNewMv, ctx, t) == t.inter_compound_mode[ctx][4],
        mode_bits(PredictionMode::NewNearMv, ctx, t) == t.inter_compound_mode[ctx][5],
        mode_bits(PredictionMode::GlobalGlobalMv, ctx, t) == t.inter_compound_mode[ctx][6],
        mode_bits(PredictionMode::NewNewMv, ctx, t) == t.inter_compound_mode[ctx][7],
{
}

/// The place in the candidate list is told by flags that say to go on: one for
/// each place that has one after it, at its own context, until the place is
/// reached. New vectors start at the top of the list, near ones one below, and
/// the others have no place.
pub proof fn places_are_told_by_going_on(
    mode: PredictionMode,
    index: int,
    count: int,
    ctx: Seq<usize>,
    t: InterFacBits,
)
    requires
        0 <= index,
        0 <= count,
    ensures
        mode is NewMv || mode is NewNewMv ==> {
            &&& count <= 1 ==> drl_bits(mode, index, count, ctx, t) == 0
            &&& count == 2 && index == 0 ==> drl_bits(mode, index, count, ctx, t) == t.drl_mode[ctx[0] as int][0]
            &&& count == 2 && index > 0 ==> drl_bits(mode, index, count, ctx, t) == t.drl_mode[ctx[0] as int][1]
            &&& count > 2 && index == 0 ==> drl_bits(mode, index, count, ctx, t) == t.drl_mode[ctx[0] as int][0]
            &&& count > 2 && index == 1 ==> drl_bits(mode, index, count, ctx, t) == t.drl_mode[ctx[0] as int][1]
                + t.drl_mode[ctx[1] as int][0]
            &&& count > 2 && index > 1 ==> drl_bits(mode, index, count, ctx, t) == t.drl_mode[ctx[0] as int][1]
                + t.drl_mode[ctx[1] as int][1]
        },
        mode is NearMv || mode is NearNearMv || mode is NearNewMv || mode is NewNearMv ==> {
            &&& count <= 2 ==> drl_bits(mode, index, count, ctx, t) == 0
            &&& count > 2 && index == 0 ==> drl_bits(mode, index, count, ctx, t) == t.drl_mode[ctx[1] as int][0]
            &&& count > 3 && index == 1 ==> drl_bits(mode, index, count, ctx, t) == t.drl_mode[ctx[1] as int][1]
                + t.drl_mode[ctx[2] as int][0]
            &&& count > 3 && index > 1 ==> drl_bits(mode, index, count, ctx, t) == t.drl_mode[ctx[1] as int][1]
                + t.drl_mode[ctx[2] as int][1]
        },
        mode is NearestMv || mode is GlobalMv || mode is NearestNearestMv || mode is GlobalGlobalMv ==> drl_bits(
            mode,
            index,
            count,
            ctx,
            t,
        ) == 0,
{
}

/// By the light estimate, a vector costs more the further it is from its
/// prediction: 50 for each step, 20 on screen content, and 1296 for being
/// coded at all.
pub proof fn far_vectors_cost_more(
    f: InterFrame,
    b: InterBlock,
    near: InterCandidate,
    far: InterCandidate,
    t: InterFacBits,
)
    requires
        near.mode is NewMv,
        far == (InterCandidate { mv: far.mv, ..near }),
    ensures
        light_bits(f, b, far, t) - light_bits(f, b, near, t) == (if f.allow_screen_content_tools {
            20int
        } else {
            50
        }) * (abs_int(far.mv[0].x - near.pred_mv[0].x) + abs_int(far.mv[0].y - near.pred_mv[0].y) - abs_int(
            near.mv[0].x - near.pred_mv[0].x,
        ) - abs_int(near.mv[0].y - near.pred_mv[0].y)),
{
    let (u, v) = (
        abs_int(far.mv[0].x - near.pred_mv[0].x) + abs_int(far.mv[0].y - near.pred_mv[0].y),
        abs_int(near.mv[0].x - near.pred_mv[0].x) + abs_int(near.mv[0].y - near.pred_mv[0].y),
    );
    let k: int = if f.allow_screen_content_tools {
        20
    } else {
        50
    };
    assert(k * u - k * v == k * (u - v)) by (nonlinear_arith);
}

/// An exact estimate prices vectors by their own rates: every bit of a coded
/// vector is a bit of the candidate, and a vector that is not coded is free.
pub proof fn coded_vectors_are_paid(
    f: InterFrame,
    b: InterBlock,
    a: InterCandidate,
    c: InterCandidate,
    t: InterFacBits,
)
    requires
        b.approx_inter_rate == 0,
        c == (InterCandidate { mv_bits: c.mv_bits, ..a }),
    ensures
        ({
            let change = inter_bits(f, b, c, t) - inter_bits(f, b, a, t);
            let (first, second) = (c.mv_bits[0] - a.mv_bits[0], c.mv_bits[1] - a.mv_bits[1]);
            &&& a.mode is NewMv || a.mode is NewNearestMv || a.mode is NewNearMv ==> change == first
            &&& a.mode is NearestNewMv || a.mode is NearNewMv ==> change == second
            &&& a.mode is NewNewMv ==> change == first + second
            &&& a.mode is NearestMv || a.mode is NearMv || a.mode is GlobalMv || a.mode is NearestNearestMv
                || a.mode is NearNearMv || a.mode is GlobalGlobalMv ==> change == 0
        }),
{
}

/// References, the inter flag and the flag that denies skip mode are paid by
/// every candidate, at their own rates.
pub proof fn every_inter_candidate_pays_its_header(
    f: InterFrame,
    b: InterBlock,
    c: InterCandidate,
    t: InterFacBits,
    more: int,
)
    requires
        b.approx_inter_rate == 0,
        0 <= more,
        b.ref_frames_num_bits + more <= u64::MAX,
    ensures
        inter_bits(f, (InterBlock { ref_frames_num_bits: (b.ref_frames_num_bits + more) as u64, ..b }), c, t)
            == inter_bits(f, b, c, t) + more,
        inter_bits((InterFrame { skip_mode_flag: true, ..f }), b, c, t) - inter_bits(
            (InterFrame { skip_mode_flag: false, ..f }),
            b,
            c,
            t,
        ) == if b.bsize.wide_spec() >= 8 && b.bsize.high_spec() >= 8 {
            t.skip_mode[b.skip_mode_ctx as int][0] as int
        } else {
            0
        },
{
    let more_refs = InterBlock { ref_frames_num_bits: (b.ref_frames_num_bits + more) as u64, ..b };
    assert(mode_bits(c.mode, b.mode_context as int, t) == mode_bits(c.mode, more_refs.mode_context as int, t));
}

/// How a candidate moves is told where the frame leaves it open and there is
/// one reference, by the richest way that its block may use: not at all, by a
/// flag, or by a symbol.
pub proof fn ways_of_moving_are_told(f: InterFrame, b: InterBlock, c: InterCandidate, t: InterFacBits)
    ensures
        !f.is_motion_mode_switchable || c.motion_mode_allowed is SimpleTranslation || c.mode is NewNewMv
            || c.ref_frame[1] == 0 ==> motion_mode_bits(f, b, c, t) == 0,
        f.is_motion_mode_switchable && c.mode is NewMv && c.ref_frame[1] != 0 ==> {
            &&& c.motion_mode_allowed is ObmcCausal && c.motion_mode is SimpleTranslation ==> motion_mode_bits(f, b, c, t)
                == t.motion_mode1[b.bsize.index()][0]
            &&& c.motion_mode_allowed is ObmcCausal && c.motion_mode is ObmcCausal ==> motion_mode_bits(f, b, c, t)
                == t.motion_mode1[b.bsize.index()][1]
            &&& c.motion_mode_allowed is WarpedCausal && c.motion_mode is SimpleTranslation ==> motion_mode_bits(f, b, c, t)
                == t.motion_mode[b.bsize.index()][0]
            &&& c.motion_mode_allowed is WarpedCausal && c.motion_mode is ObmcCausal ==> motion_mode_bits(f, b, c, t)
                == t.motion_mode[b.bsize.index()][1]
            &&& c.motion_mode_allowed is WarpedCausal && c.motion_mode is WarpedCausal ==> motion_mode_bits(f, b, c, t)
                == t.motion_mode[b.bsize.index()][2]
        },
{
}

/// What a candidate pays beyond its header, mode, place and vectors is what it
/// pays for how it moves, mixes in an intra prediction, combines its two
/// predictions and interpolates.
pub proof fn tools_come_on_top(f: InterFrame, b: InterBlock, c: InterCandidate, t: InterFacBits)
    requires
        b.approx_inter_rate == 0,
        !b.ifs_at_mds0,
    ensures
        ({
            let plain = InterFrame {
                is_motion_mode_switchable: false,
                enable_interintra_compound: false,
                ..f
            };
            let alone = InterCandidate { ref_frame: [c.ref_frame[0], 0i8], ..c };
            inter_bits(f, b, c, t) == inter_bits(plain, b, alone, t) + motion_mode_bits(f, b, c, t) + interintra_bits(
                f,
                b,
                c,
                t,
            ) + compound_bits(b.bsize, c, f, b.comp_group_idx_ctx, b.comp_index_ctx, t)
        }),
{
}

/// Interpolation filters are told where the frame leaves them open: the
/// vertical one, and the horizontal one too where they may differ.
pub proof fn filters_are_told(filters: u32, ctx: Seq<usize>, dual: bool, kind: u8, t: InterFacBits)
    ensures
        kind != 4 ==> switchable_bits(kind, ctx, filters, dual, t) == 0,
        kind == 4 && !dual ==> switchable_bits(kind, ctx, filters, dual, t)
            == t.switchable_interp[ctx[0] as int][filters as int % 0x1_0000],
        kind == 4 && dual ==> switchable_bits(kind, ctx, filters, dual, t)
            == t.switchable_interp[ctx[0] as int][filters as int % 0x1_0000]
            + t.switchable_interp[ctx[1] as int][filters as int / 0x1_0000],
{
}

/// The quick cost of a candidate is that of its rate and distortion, or that of
/// skip mode's rate where that is on offer and lower; the rate that is kept
/// with the candidate is its own, in 32 bits.
pub proof fn quick_costs_take_the_lower_rate(
    r: FastCost,
    luma: int,
    b: InterBlock,
    c: InterCandidate,
    lambda: int,
    dist: int,
    t: InterFacBits,
)
    requires
        is_fast_cost(r, luma, b, c, lambda, dist, t),
        0 <= luma < 0x1_0000_0000,
        0 <= lambda,
    ensures
        ({
            let skip = t.skip_mode[b.skip_mode_ctx as int][1] as int;
            &&& r.rate.luma == luma
            &&& r.rate.chroma == 0
            &&& !c.skip_mode_allowed || luma <= skip ==> r.cost == (luma * lambda + 256) / 512 + 128 * dist
            &&& c.skip_mode_allowed && skip <= luma ==> r.cost == (skip * lambda + 256) / 512 + 128 * dist
        }),
{
}

/// How two predictions are combined is told where there are two: whether under
/// a mask, where masks are on offer; without one whether by distance, where
/// that is on offer; under one which kind, where wedges fit the block, the
/// wedge, and a sign of one bit.
pub proof fn combinations_are_told(
    bsize: BlockSize,
    c: InterCandidate,
    f: InterFrame,
    group: usize,
    index: usize,
    t: InterFacBits,
)
    ensures
        c.ref_frame[1] <= 0 ==> compound_bits(bsize, c, f, group, index, t) == 0,
        c.ref_frame[1] > 0 && c.comp_group_idx == 0 ==> {
            let masked = f.enable_masked_compound && bsize.wide_spec() >= 8 && bsize.high_spec() >= 8;
            compound_bits(bsize, c, f, group, index, t) == (if masked {
                t.comp_group_idx[group as int][0] as int
            } else {
                0
            }) + (if !f.enable_jnt_comp {
                0
            } else if c.compound_idx == 0 {
                t.comp_idx[index as int][0] as int
            } else {
                t.comp_idx[index as int][1] as int
            })
        },
        c.ref_frame[1] > 0 && c.comp_group_idx != 0 && c.interinter_comp_type is Wedge ==> {
            let masked = f.enable_masked_compound && bsize.wide_spec() >= 8 && bsize.high_spec() >= 8;
            let wedges = bsize.wide_spec() >= 8 && bsize.high_spec() >= 8 && uses_wedge(bsize);
            compound_bits(bsize, c, f, group, index, t) == 512 + (if masked {
                t.comp_group_idx[group as int][1] as int
            } else {
                0
            }) + (if wedges {
                t.compound_type[bsize.index()][0] as int
            } else {
                0
            }) + t.wedge_idx[bsize.index()][c.interinter_wedge_index as int]
        },
        c.ref_frame[1] > 0 && c.comp_group_idx != 0 && c.interinter_comp_type is DiffWtd ==> {
            let masked = f.enable_masked_compound && bsize.wide_spec() >= 8 && bsize.high_spec() >= 8;
            let wedges = bsize.wide_spec() >= 8 && bsize.high_spec() >= 8 && uses_wedge(bsize);
            compound_bits(bsize, c, f, group, index, t) == 512 + (if masked {
                t.comp_group_idx[group as int][1] as int
            } else {
                0
            }) + (if wedges {
                t.compound_type[bsize.index()][1] as int
            } else {
                0
            })
        },
{
}

/// Wedges fit blocks whose sides lie from 8 to 32.
pub proof fn wedges_fit_middling_blocks(bsize: BlockSize)
    ensures
        uses_wedge(bsize) <==> 8 <= bsize.wide_spec() <= 32 && 8 <= bsize.high_spec() <= 32,
{
}

/// Whether an intra prediction is mixed in is told wherever it may be; where it
/// is, its mode, and where wedges fit the block, whether and which.
pub proof fn mixed_in_predictions_are_told(f: InterFrame, b: InterBlock, c: InterCandidate, t: InterFacBits)
    ensures
        ({
            let i = b.bsize.index();
            let g = SIZE_GROUP_LOOKUP[i] as int;
            let r = interintra_bits(f, b, c, t);
            &&& !f.enable_interintra_compound || !c.interintra_allowed ==> r == 0
            &&& f.enable_interintra_compound && c.interintra_allowed ==> {
                &&& !c.is_interintra_used ==> r == t.inter_intra[g][0]
                &&& c.is_interintra_used && !uses_wedge(b.bsize) ==> r == t.inter_intra[g][1]
                    + t.inter_intra_mode[g][c.interintra_mode as int]
                &&& c.is_interintra_used && uses_wedge(b.bsize) && !c.use_wedge_interintra ==> r == t.inter_intra[g][1]
                    + t.inter_intra_mode[g][c.interintra_mode as int] + t.wedge_inter_intra[i][0]
                &&& c.is_interintra_used && uses_wedge(b.bsize) && c.use_wedge_interintra ==> r == t.inter_intra[g][1]
                    + t.inter_intra_mode[g][c.interintra_mode as int] + t.wedge_inter_intra[i][1]
                    + t.wedge_idx[i][c.interintra_wedge_index as int]
            }
        }),
{
}

/// Filters are told where they are decided already, except for blocks that are
/// warped, by their neighbours or by a global motion that is no translation.
pub proof fn warped_blocks_need_no_filter(f: InterFrame, b: InterBlock, c: InterCandidate, t: InterFacBits)
    ensures
        !b.ifs_at_mds0 || c.motion_mode is WarpedCausal ==> ifs_bits(f, b, c, t) == 0,
        b.ifs_at_mds0 && !(c.motion_mode is WarpedCausal) && !(c.mode is GlobalMv || c.mode is GlobalGlobalMv) ==> ifs_bits(
            f,
            b,
            c,
            t,
        ) == switchable_bits(f.interpolation_filter, b.interp_ctx@, c.interp_filters, f.enable_dual_filter, t),
        c.mode is GlobalMv && c.ref_frame[1] <= 0 && f.gm_wmtype[c.ref_frame[0] as int] != TransformationType::Translation
            && b.bsize.wide_spec() >= 8 && b.bsize.high_spec() >= 8 ==> ifs_bits(f, b, c, t) == 0,
{
}

/// The light estimate prices each vector that a mode codes, and no other.
pub proof fn light_estimates_price_coded_vectors(c: InterCandidate, factor: int)
    ensures
        ({
            let cost = |k: int| 1296 + factor * (abs_int(c.mv[k].x - c.pred_mv[k].x) + abs_int(c.mv[k].y - c.pred_mv[k].y));
            let r = light_mv_total(c, factor);
            &&& c.mode is NewMv || c.mode is NewNearestMv || c.mode is NewNearMv ==> r == cost(0)
            &&& c.mode is NearestNewMv || c.mode is NearNewMv ==> r == cost(1)
            &&& c.mode is NewNewMv ==> r == cost(0) + cost(1)
            &&& c.mode is NearestMv || c.mode is NearMv || c.mode is GlobalMv || c.mode is NearestNearestMv
                || c.mode is NearNearMv || c.mode is GlobalGlobalMv ==> r == 0
        }),
{
}

} // verus!
