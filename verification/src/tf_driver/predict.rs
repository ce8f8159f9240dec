//! What a prediction request asks of the sample kernels, plane by plane.

use vstd::prelude::*;

use crate::temporal_filtering::blocks::{mb_edges, MbEdges, TfPredictionRequest};
use crate::types::Mv;

verus! {

/// The prediction of one plane of a block.
#[derive(Debug, Clone, Copy, PartialEq, Eq, Structural)]
pub struct TfPlanePrediction {
    pub plane: usize,
    /// Where the prediction starts in the plane of its 64x64 block.
    pub dst: usize,
    pub dst_stride: usize,
    /// Place of the block in the plane of the picture.
    pub x: i32,
    pub y: i32,
    /// Side of the block.
    pub size: usize,
    /// Row length of the intermediate sums.
    pub conv_stride: usize,
    pub mv: Mv,
    /// Distances of the luma block to the edges of the picture.
    pub edges: MbEdges,
}

/// Distances of a requested block to the edges of the picture.
pub open spec fn request_edges(req: TfPredictionRequest, mi_cols: int, mi_rows: int) -> MbEdges {
    MbEdges {
        top: (-32 * (req.pu_origin_y as int / 4)) as i32,
        bottom: (32 * (mi_rows - req.mi_size - req.pu_origin_y as int / 4)) as i32,
        left: (-32 * (req.pu_origin_x as int / 4)) as i32,
        right: (32 * (mi_cols - req.mi_size - req.pu_origin_x as int / 4)) as i32,
    }
}

/// What a request asks of a plane; chroma has half the luma's size both ways.
pub open spec fn plane_request(
    req: TfPredictionRequest,
    plane: usize,
    sb_size: int,
    mi_cols: int,
    mi_rows: int,
) -> TfPlanePrediction {
    let ss: int = if plane == 0 {
        1
    } else {
        2
    };
    TfPlanePrediction {
        plane,
        dst: (req.local_origin_x as int / ss + (req.local_origin_y as int / ss) * (64int / ss)) as usize,
        dst_stride: (64int / ss) as usize,
        x: (req.pu_origin_x as int / ss) as i32,
        y: (req.pu_origin_y as int / ss) as i32,
        size: (req.bsize as int / ss) as usize,
        conv_stride: (sb_size / ss) as usize,
        mv: Mv { x: req.mv_x, y: req.mv_y },
        edges: request_edges(req, mi_cols, mi_rows),
    }
}

/// What a request asks of every plane: luma, and chroma where it is filtered.
pub open spec fn request_planes(
    req: TfPredictionRequest,
    tf_chroma: bool,
    sb_size: int,
    mi_cols: int,
    mi_rows: int,
) -> Seq<TfPlanePrediction> {
    if tf_chroma {
        seq![
            plane_request(req, 0, sb_size, mi_cols, mi_rows),
            plane_request(req, 1, sb_size, mi_cols, mi_rows),
            plane_request(req, 2, sb_size, mi_cols, mi_rows),
        ]
    } else {
        seq![plane_request(req, 0, sb_size, mi_cols, mi_rows)]
    }
}

/// The planes a request predicts, with a superblock size and the size of the
/// picture in units of four samples: luma, and chroma where it is filtered.
pub fn tf_predict_one(
    req: &TfPredictionRequest,
    tf_chroma: bool,
    sb_size: u32,
    mi_cols: i32,
    mi_rows: i32,
) -> (out: Vec<TfPlanePrediction>)
    requires
        0 <= req.mi_size <= 32,
        0 <= mi_cols <= 0x3ff_0000,
        0 <= mi_rows <= 0x3ff_0000,
    ensures
        out@ == request_planes(*req, tf_chroma, sb_size as int, mi_cols as int, mi_rows as int),
{
    let edges: MbEdges = mb_edges(req.pu_origin_x, req.pu_origin_y, req.mi_size, req.mi_size, mi_cols, mi_rows);
    let mv: Mv = Mv { x: req.mv_x, y: req.mv_y };
    let (x, y): (usize, usize) = (req.local_origin_x as usize, req.local_origin_y as usize);
    let mut out: Vec<TfPlanePrediction> = Vec::new();
    out.push(
        TfPlanePrediction {
            plane: 0,
            dst: x + y * 64,
            dst_stride: 64,
            x: req.pu_origin_x as i32,
            y: req.pu_origin_y as i32,
            size: req.bsize as usize,
            conv_stride: sb_size as usize,
            mv,
            edges,
        },
    );
    if tf_chroma {
        let half: TfPlanePrediction = TfPlanePrediction {
            plane: 1,
            dst: x / 2 + (y / 2) * 32,
            dst_stride: 32,
            x: req.pu_origin_x as i32 / 2,
            y: req.pu_origin_y as i32 / 2,
            size: req.bsize as usize / 2,
            conv_stride: sb_size as usize / 2,
            mv,
            edges,
        };
        out.push(half);
        out.push(TfPlanePrediction { plane: 2, ..half });
    }
    out
}

/// What a request predicts lies in the planes of its 64x64 block.
pub proof fn predictions_stay_in_their_block(req: TfPredictionRequest, plane: usize, sb_size: int, cols: int, rows: int)
    requires
        plane < 3,
        req.bsize == 8 || req.bsize == 16 || req.bsize == 32 || req.bsize == 64,
        req.local_origin_x as int % 8 == 0,
        req.local_origin_y as int % 8 == 0,
        req.local_origin_x + req.bsize <= 64,
        req.local_origin_y + req.bsize <= 64,
    ensures
        ({
            let p = plane_request(req, plane, sb_size, cols, rows);
            &&& p.dst % p.dst_stride + p.size <= p.dst_stride
            &&& p.dst + (p.size - 1) * p.dst_stride + p.size <= p.dst_stride * p.dst_stride
        }),
{
    let p = plane_request(req, plane, sb_size, cols, rows);
    let (x, y) = (req.local_origin_x as int, req.local_origin_y as int);
    if plane == 0 {
        assert(64int / 1 == 64 && x / 1 == x && y / 1 == y);
        assert(p.dst_stride == 64 && p.dst == x + y * 64 && p.size == req.bsize);
    } else {
        assert(64int / 2 == 32);
        assert(p.dst_stride == 32 && p.dst == x / 2 + (y / 2) * 32 && p.size == req.bsize as int / 2);
    }
}

} // verus!
