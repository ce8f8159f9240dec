//! What intra prediction reads around a block: the samples beside it where
//! there are any, and constants where there are none.

use vstd::prelude::*;

use crate::tpl::context::{flat_only, intra_plan, TplSbCtx};
use crate::tpl::dispenser::{edge_plan, TplBlock};
use crate::tpl::samples::PlaneShape;
use crate::tpl::search::NeighborPlan;

verus! {

/// A block that lies inside the frame, with its neighbours on both sides, has
/// the column before it to its left and the row before it above, as far as its
/// own sides reach, and the sample before both in the corner. Where more are
/// asked for, the last one of each repeats.
pub proof fn inner_blocks_have_their_neighbours(
    p: NeighborPlan,
    buf: Seq<u8>,
    old_above: Seq<u8>,
    old_left: Seq<u8>,
    k: int,
)
    requires
        p.x > 0,
        p.y > 0,
        p.bw > 0,
        p.bh == p.bw,
        p.x + p.bw <= p.width,
        p.y + p.bh <= p.height,
        p.read_top,
        p.extend,
        0 <= k <= 2 * p.bw,
    ensures
        ({
            let o = p.origin();
            let last = if k <= p.bw {
                k
            } else {
                p.bw
            };
            &&& k == 0 ==> p.left_at(buf, old_left, k) == buf[o - p.stride - 1] && p.above_at(buf, old_above, old_left, k)
                == buf[o - p.stride - 1]
            &&& k > 0 ==> p.left_at(buf, old_left, k) == buf[o - 1 + (last - 1) * p.stride]
            &&& k > 0 ==> p.above_at(buf, old_above, old_left, k) == buf[o - p.stride + (last - 1)]
        }),
{
}

/// The first block of a frame has no neighbours: 128 stands in the corner, 129
/// to the left and 127 above.
pub proof fn the_first_block_has_no_neighbours(
    p: NeighborPlan,
    buf: Seq<u8>,
    old_above: Seq<u8>,
    old_left: Seq<u8>,
    k: int,
)
    requires
        p.x == 0,
        p.y == 0,
        0 <= k <= p.bw,
        p.bh == p.bw,
    ensures
        k == 0 ==> p.left_at(buf, old_left, k) == 128 && p.above_at(buf, old_above, old_left, k) == 128,
        k > 0 ==> p.left_at(buf, old_left, k) == 129 && p.above_at(buf, old_above, old_left, k) == 127,
{
}

/// In the first column the left neighbours are the first sample above, and in
/// the first row those above are a left neighbour.
pub proof fn edge_blocks_borrow_their_neighbours(
    p: NeighborPlan,
    buf: Seq<u8>,
    old_above: Seq<u8>,
    old_left: Seq<u8>,
    k: int,
)
    requires
        0 < p.bw,
        p.bh == p.bw,
        !p.extend,
        p.x + p.bw <= p.width,
        p.y + p.bh <= p.height,
        0 <= k <= p.bw,
    ensures
        p.x == 0 && p.y > 0 ==> p.left_at(buf, old_left, k) == buf[p.origin() - p.stride],
        p.x > 0 && p.y == 0 ==> p.above_at(buf, old_above, old_left, k) == buf[p.origin() - 1],
{
    assert(0 * p.stride == 0);
}

/// Only slanted directions have their neighbours smoothed: those above for
/// directions up to the left or right, those to the left for directions down
/// or up to the left, and the corner where both are read. Directions past the
/// far corner read one block more.
pub proof fn slanted_directions_are_smoothed(angle: int, width: int, height: int, x: u32, y: u32)
    requires
        0 < angle < 270,
        x > 0,
        y > 0,
        x + 16 <= width,
        y + 16 <= height,
    ensures
        ({
            let p = edge_plan(angle, width, height, x, y);
            &&& p.corner <==> 90 < angle < 180
            &&& angle < 90 ==> p.above == 33 && p.left == 0
            &&& angle == 90 ==> p.above == 0 && p.left == 0
            &&& 90 < angle < 180 ==> p.above == 17 && p.left == 17
            &&& angle == 180 ==> p.above == 0 && p.left == 0
            &&& angle > 180 ==> p.above == 0 && p.left == 33
        }),
        edge_plan(angle, width, height, x, 0).above == 0,
        edge_plan(angle, width, height, 0, y).left == 0,
{
}

/// Directional modes alone read smoothed neighbours, and none does where only
/// the flat mode is tried; then a block reads as far as its side, and else
/// twice as far. Blocks in the first column or row have nothing beside them.
pub proof fn flat_searches_read_less(c: TplSbCtx, b: TplBlock, mode: int)
    requires
        b.size <= 64,
    ensures
        intra_plan(c, b, mode).edges is Some <==> !flat_only(c) && 1 <= mode <= 8,
        flat_only(c) ==> intra_plan(c, b, mode).reach == b.size,
        !flat_only(c) ==> intra_plan(c, b, mode).reach == 2 * b.size,
        intra_plan(c, b, mode).has_left <==> b.x != 0,
        intra_plan(c, b, mode).has_above <==> b.y != 0,
        flat_only(c) <==> c.use_sad_in_src_search && c.intra_mode_end == 0,
{
}

/// A block starts at its row and column from where its picture does.
pub proof fn blocks_start_in_their_picture(g: PlaneShape, b: TplBlock)
    ensures
        g.start(b) == g.origin + b.y * g.stride + b.x,
{
}

} // verus!
