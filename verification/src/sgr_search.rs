//! Search for the self-guided restoration of a unit: the parameter set, the
//! two projection weights, and whether the restoration pays for itself.

use vstd::prelude::*;

use crate::arith::{clamp_i32, clamp_int};


pub mod decision;
pub mod error;
pub mod laws;
pub mod refine;
pub mod signal;
pub mod sweep;

verus! {

/// Fractional bits of a filtered sample.
pub const SGRPROJ_RST_BITS: i32 = 4;

/// Fractional bits of a projection weight: unity is 128.
pub const SGRPROJ_PRJ_BITS: i32 = 7;

/// Bits of a parameter set number.
pub const SGRPROJ_PARAMS_BITS: i32 = 4;

/// Range of the first coded weight.
pub const SGRPROJ_PRJ_MIN0: i32 = -96;

pub const SGRPROJ_PRJ_MAX0: i32 = 31;

/// Range of the second coded weight.
pub const SGRPROJ_PRJ_MIN1: i32 = -32;

pub const SGRPROJ_PRJ_MAX1: i32 = 95;

/// Parameter of the code a weight's difference is written with.
pub const SGRPROJ_PRJ_SUBEXP_K: i32 = 4;

/// Side of the blocks a unit is filtered in.
pub const RESTORATION_PROC_UNIT_SIZE: i32 = 64;

/// Number of parameter sets.
pub const SGR_SETS: usize = 16;

/// Radii of the two filters of each parameter set; zero where a filter is
/// off.
pub const SGR_RADII: [[i32; 2]; 16] = [
    [2, 1],
    [2, 1],
    [2, 1],
    [2, 1],
    [2, 1],
    [2, 1],
    [2, 1],
    [2, 1],
    [2, 1],
    [2, 1],
    [0, 1],
    [0, 1],
    [0, 1],
    [0, 1],
    [2, 0],
    [2, 0],
];

/// The filters of a parameter set.
#[derive(Debug, Clone, Copy, PartialEq, Eq)]
pub struct SgrParamsType {
    /// Radii; zero where the filter is off.
    pub r: [i32; 2],
}

impl SgrParamsType {
    /// The first filter runs.
    pub open spec fn first(self) -> bool {
        self.r[0] > 0
    }

    /// The second filter runs.
    pub open spec fn second(self) -> bool {
        self.r[1] > 0
    }

    /// Radii are not negative.
    pub open spec fn wf(self) -> bool {
        self.r[0] >= 0 && self.r[1] >= 0
    }
}

/// The parameter set of a number.
pub open spec fn sgr_set(ep: int) -> SgrParamsType {
    SgrParamsType { r: SGR_RADII[ep] }
}

/// The parameter set of a number.
pub fn sgr_params(ep: usize) -> (r: SgrParamsType)
    requires
        ep < 16,
    ensures
        r == sgr_set(ep as int),
        r.wf(),
        r.first() || r.second(),
{
    let r: SgrParamsType = SgrParamsType { r: SGR_RADII[ep] };
    proof {
        assert(ep == 0 || ep == 1 || ep == 2 || ep == 3 || ep == 4 || ep == 5 || ep == 6 || ep == 7 || ep == 8 || ep
            == 9 || ep == 10 || ep == 11 || ep == 12 || ep == 13 || ep == 14 || ep == 15);
    }
    r
}

/// What a unit signals.
#[derive(Debug, Clone, Copy, PartialEq, Eq)]
pub struct SgrprojInfo {
    /// Number of the parameter set.
    pub ep: i32,
    /// The coded weights.
    pub xqd: [i32; 2],
}

impl Default for SgrprojInfo {
    fn default() -> (r: Self)
        ensures
            r.ep == 0,
            r.xqd@ == seq![0i32, 0],
    {
        SgrprojInfo { ep: 0, xqd: [0, 0] }
    }
}

/// Which parameter sets are tried, for luma and for chroma.
#[derive(Debug, Clone, Copy, PartialEq, Eq)]
pub struct SgFilterCtrls {
    pub start_ep: [u8; 2],
    /// One past the last set.
    pub end_ep: [u8; 2],
    pub ep_inc: [u8; 2],
    /// The weights are refined.
    pub refine: [bool; 2],
}

/// The first projection weight a coded pair stands for.
pub open spec fn weight0(x0: int, params: SgrParamsType) -> int {
    if params.r[0] == 0 {
        0
    } else {
        x0
    }
}

/// The second projection weight a coded pair stands for: what the first and
/// the coded value leave of unity, or nothing where the filter is off.
pub open spec fn weight1(x0: int, x1: int, params: SgrParamsType) -> int {
    if params.r[0] == 0 {
        128 - x1
    } else if params.r[1] == 0 {
        0
    } else {
        128 - x0 - x1
    }
}

/// The weights of a coded pair are computed without overflow.
pub open spec fn decodes(x0: int, x1: int, params: SgrParamsType) -> bool {
    &&& params.r[0] == 0 ==> i32::MIN <= 128 - x1 <= i32::MAX
    &&& params.r[0] != 0 && params.r[1] != 0 ==> i32::MIN <= 128 - x0 <= i32::MAX && i32::MIN <= 128 - x0 - x1
        <= i32::MAX
}

/// The projection weights a coded pair stands for.
pub fn decode_xq(xqd: &[i32; 2], params: &SgrParamsType) -> (r: [i32; 2])
    requires
        decodes(xqd[0] as int, xqd[1] as int, *params),
    ensures
        r[0] == weight0(xqd[0] as int, *params),
        r[1] == weight1(xqd[0] as int, xqd[1] as int, *params),
{
    if params.r[0] == 0 {
        [0, 128 - xqd[1]]
    } else if params.r[1] == 0 {
        [xqd[0], 0]
    } else {
        [xqd[0], 128 - xqd[0] - xqd[1]]
    }
}

/// First coded weight of a solution.
pub open spec fn coded0(w0: int, params: SgrParamsType) -> int {
    if params.r[0] == 0 {
        0
    } else {
        clamp_int(w0, SGRPROJ_PRJ_MIN0 as int, SGRPROJ_PRJ_MAX0 as int)
    }
}

/// Second coded weight of a solution: what the clamped first weight and the
/// second leave of unity. Where the second filter is off its weight counts
/// as zero.
pub open spec fn coded1(w0: int, w1: int, params: SgrParamsType) -> int {
    clamp_int(
        128 - coded0(w0, params) - if params.r[0] != 0 && params.r[1] == 0 {
            0
        } else {
            w1
        },
        SGRPROJ_PRJ_MIN1 as int,
        SGRPROJ_PRJ_MAX1 as int,
    )
}

/// The coded pair of solved projection weights.
pub fn encode_xq(xq: &[i32; 2], params: &SgrParamsType) -> (r: [i32; 2])
    requires
        params.r[0] == 0 ==> i32::MIN <= 128 - xq[1] <= i32::MAX,
        params.r[0] != 0 && params.r[1] != 0 ==> i32::MIN <= 128 - coded0(xq[0] as int, *params) - xq[1] <= i32::MAX,
    ensures
        r[0] == coded0(xq[0] as int, *params),
        r[1] == coded1(xq[0] as int, xq[1] as int, *params),
{
    if params.r[0] == 0 {
        [0, clamp_i32(128 - xq[1], SGRPROJ_PRJ_MIN1, SGRPROJ_PRJ_MAX1)]
    } else if params.r[1] == 0 {
        let x0: i32 = clamp_i32(xq[0], SGRPROJ_PRJ_MIN0, SGRPROJ_PRJ_MAX0);
        [x0, clamp_i32(128 - x0, SGRPROJ_PRJ_MIN1, SGRPROJ_PRJ_MAX1)]
    } else {
        let x0: i32 = clamp_i32(xq[0], SGRPROJ_PRJ_MIN0, SGRPROJ_PRJ_MAX0);
        [x0, clamp_i32(128 - x0 - xq[1], SGRPROJ_PRJ_MIN1, SGRPROJ_PRJ_MAX1)]
    }
}

/// Stride of the filtered samples of a unit.
pub fn search_flt_stride(width: i32) -> (r: usize)
    requires
        0 <= width <= i32::MAX - 15,
    ensures
        r == (width + 7) / 8 * 8 + 8,
{
    ((width + 7) / 8 * 8 + 8) as usize
}

/// Decoding undoes encoding on every weight of a running filter that the
/// coded ranges can express.
pub proof fn weights_survive_coding(w0: int, w1: int, params: SgrParamsType)
    requires
        params.first() ==> SGRPROJ_PRJ_MIN0 <= w0 <= SGRPROJ_PRJ_MAX0,
        params.second() ==> SGRPROJ_PRJ_MIN1 <= 128 - (if params.r[0] == 0 {
            0
        } else {
            w0
        }) - w1 <= SGRPROJ_PRJ_MAX1,
        params.wf(),
    ensures
        params.first() ==> weight0(coded0(w0, params), params) == w0,
        params.second() ==> weight1(coded0(w0, params), coded1(w0, w1, params), params) == w1,
        params.first() && !params.second() ==> weight1(coded0(w0, params), coded1(w0, w1, params), params) == 0,
{
}

} // verus!
