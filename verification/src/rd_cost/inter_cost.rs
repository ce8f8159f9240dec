//! The quick cost of an inter candidate: the rate of its syntax, priced
//! before its residual is known.

use vstd::prelude::*;

use crate::arith::{abs_i32, abs_int, low_u32};
use crate::coeff_costs::{cdf_rate, cdf_table_wf, cdf_wf, syntax_rate_from_cdf};
use crate::rd_cost::{cost_fits, rd, rdcost};
use crate::types::{
    comp_ref_allowed, is_comp_ref_allowed, BlockSize, CompoundType, MotionMode, Mv, PredictionMode,
    TransformationType,
};

verus! {

/// Inter-intra modes.
pub const INTERINTRA_MODES: usize = 4;

/// Two-reference modes.
pub const INTER_COMPOUND_MODES: usize = 8;

/// Masked compound kinds.
pub const MASKED_COMPOUND_TYPES: usize = 2;

/// Contexts of the plain-average flag.
pub const COMP_INDEX_CONTEXTS: usize = 6;

/// Contexts of the masked-compound flag.
pub const COMP_GROUP_IDX_CONTEXTS: usize = 6;

/// The frame-level interpolation filter that means "chosen per block". It is
/// one past the bilinear filter, which is one past the three coded filters.
pub const SWITCHABLE: u8 = 4;

/// Size group of each block size.
pub const SIZE_GROUP_LOOKUP: [u8; 22] = [0, 0, 0, 1, 1, 1, 2, 2, 2, 3, 3, 3, 3, 3, 3, 3, 0, 0, 1, 1, 2, 2];

/// Bits of a wedge index, by block size; zero where wedges are not used.
pub const WEDGE_PARAMS_BITS: [u8; 22] = [0, 0, 0, 4, 4, 4, 4, 4, 4, 4, 0, 0, 0, 0, 0, 0, 0, 0, 4, 4, 0, 0];

/// Whether a compound type blends under a mask.
pub fn is_masked_compound_type(t: CompoundType) -> (r: bool)
    ensures
        r == (t is Wedge || t is DiffWtd),
{
    matches!(t, CompoundType::Wedge | CompoundType::DiffWtd)
}

/// A block size uses wedges.
pub open spec fn uses_wedge(bsize: BlockSize) -> bool {
    WEDGE_PARAMS_BITS[bsize.index()] > 0
}

/// Whether inter-intra blocks of a size may use a wedge.
pub fn is_interintra_wedge_used(bsize: BlockSize) -> (r: bool)
    ensures
        r == uses_wedge(bsize),
{
    WEDGE_PARAMS_BITS[bsize.as_index()] > 0
}

/// A compound type is available at a block size.
pub open spec fn interinter_used(t: CompoundType, bsize: BlockSize) -> bool {
    comp_ref_allowed(bsize) && (t is Wedge ==> uses_wedge(bsize))
}

/// Whether a compound type is available at a block size.
pub fn is_interinter_compound_used(t: CompoundType, bsize: BlockSize) -> (r: bool)
    ensures
        r == interinter_used(t, bsize),
{
    let comp_allowed: bool = is_comp_ref_allowed(bsize);
    match t {
        CompoundType::Wedge => comp_allowed && WEDGE_PARAMS_BITS[bsize.as_index()] > 0,
        _ => comp_allowed,
    }
}

/// Whether any masked compound type is available at a block size: some is
/// exactly where two references are allowed.
pub fn is_any_masked_compound_used(bsize: BlockSize) -> (r: bool)
    ensures
        r == (interinter_used(CompoundType::Wedge, bsize) || interinter_used(CompoundType::DiffWtd, bsize)),
        r == comp_ref_allowed(bsize),
{
    if !is_comp_ref_allowed(bsize) {
        return false;
    }
    is_interinter_compound_used(CompoundType::Wedge, bsize) || is_interinter_compound_used(
        CompoundType::DiffWtd,
        bsize,
    )
}

/// The block follows a global motion model that is more than a translation
/// in every reference it uses.
pub open spec fn nontrans_global_motion(
    mode: PredictionMode,
    bsize: BlockSize,
    ref_frame: Seq<i8>,
    gm_wmtype: Seq<TransformationType>,
) -> bool {
    &&& mode is GlobalMv || mode is GlobalGlobalMv
    &&& bsize.wide_spec() >= 8 && bsize.high_spec() >= 8
    &&& gm_wmtype[ref_frame[0] as int] != TransformationType::Translation
    &&& ref_frame[1] > 0 ==> gm_wmtype[ref_frame[1] as int] != TransformationType::Translation
}

/// Whether an interpolation filter has to be coded for the candidate.
pub fn is_interp_needed_md(
    motion_mode: MotionMode,
    mode: PredictionMode,
    bsize: BlockSize,
    ref_frame: [i8; 2],
    gm_wmtype: &[TransformationType; 8],
) -> (r: bool)
    requires
        0 <= ref_frame@[0] < 8,
        ref_frame@[1] < 8,
    ensures
        r == (!(motion_mode is WarpedCausal) && !nontrans_global_motion(mode, bsize, ref_frame@, gm_wmtype@)),
{
    if motion_mode == MotionMode::WarpedCausal {
        return false;
    }
    let global: bool = mode == PredictionMode::GlobalMv || mode == PredictionMode::GlobalGlobalMv;
    if !global || bsize.wide() < 8 || bsize.high() < 8 {
        return true;
    }
    if gm_wmtype[ref_frame[0] as usize] == TransformationType::Translation {
        return true;
    }
    ref_frame[1] > 0 && gm_wmtype[ref_frame[1] as usize] == TransformationType::Translation
}

/// Bound on every rate.
pub const FAC_LIMIT: i32 = 0xf_ffff;

/// Every entry of a table is a rate below the bound.
pub open spec fn rates_ok<const C: usize>(t: Seq<[i32; C]>) -> bool {
    forall|i: int, j: int| 0 <= i < t.len() && 0 <= j < C ==> 0 <= #[trigger] t[i][j] <= FAC_LIMIT
}

/// Rates of the inter syntax, in 1/512 bit.
#[derive(Debug, Clone)]
pub struct InterFacBits {
    /// Skip-mode flag, by context.
    pub skip_mode: [[i32; 2]; 3],
    /// Intra-or-inter flag, by context.
    pub intra_inter: [[i32; 2]; 4],
    /// Not-a-new-vector flag, by context.
    pub new_mv_mode: [[i32; 2]; 6],
    /// Not-the-global-vector flag, by context.
    pub zero_mv_mode: [[i32; 2]; 2],
    /// Not-the-nearest-vector flag, by context.
    pub ref_mv_mode: [[i32; 2]; 6],
    /// Go-further-down-the-list flag, by context.
    pub drl_mode: [[i32; 2]; 3],
    /// Two-reference mode, by context.
    pub inter_compound_mode: [[i32; 8]; 8],
    /// Interpolation filter, by context.
    pub switchable_interp: [[i32; 3]; 16],
    /// Motion mode, by block size.
    pub motion_mode: [[i32; 3]; 22],
    /// Overlapped-motion flag, by block size.
    pub motion_mode1: [[i32; 2]; 22],
    /// Inter-intra flag, by size group.
    pub inter_intra: [[i32; 2]; 4],
    /// Inter-intra mode, by size group.
    pub inter_intra_mode: [[i32; 4]; 4],
    /// Inter-intra wedge flag, by block size.
    pub wedge_inter_intra: [[i32; 2]; 22],
    /// Wedge index, by block size.
    pub wedge_idx: [[i32; 16]; 22],
    /// Masked-compound flag, by context.
    pub comp_group_idx: [[i32; 2]; 6],
    /// Plain-average flag, by context.
    pub comp_idx: [[i32; 2]; 6],
    /// Masked-compound kind, by block size.
    pub compound_type: [[i32; 2]; 22],
}

/// Every rate is below the bound.
pub open spec fn inter_rates_wf(t: InterFacBits) -> bool {
    &&& rates_ok(t.skip_mode@)
    &&& rates_ok(t.intra_inter@)
    &&& rates_ok(t.new_mv_mode@)
    &&& rates_ok(t.zero_mv_mode@)
    &&& rates_ok(t.ref_mv_mode@)
    &&& rates_ok(t.drl_mode@)
    &&& rates_ok(t.inter_compound_mode@)
    &&& rates_ok(t.switchable_interp@)
    &&& rates_ok(t.motion_mode@)
    &&& rates_ok(t.motion_mode1@)
    &&& rates_ok(t.inter_intra@)
    &&& rates_ok(t.inter_intra_mode@)
    &&& rates_ok(t.wedge_inter_intra@)
    &&& rates_ok(t.wedge_idx@)
    &&& rates_ok(t.comp_group_idx@)
    &&& rates_ok(t.comp_idx@)
    &&& rates_ok(t.compound_type@)
}

/// Every entry of a table is zero.
pub open spec fn rates_zero<const C: usize>(t: Seq<[i32; C]>) -> bool {
    forall|i: int, j: int| 0 <= i < t.len() && 0 <= j < C ==> #[trigger] t[i][j] == 0
}

impl InterFacBits {
    /// All-zero rates.
    pub fn zeroed() -> (r: Self)
        ensures
            inter_rates_wf(r),
            rates_zero(r.skip_mode@),
            rates_zero(r.intra_inter@),
            rates_zero(r.new_mv_mode@),
            rates_zero(r.zero_mv_mode@),
            rates_zero(r.ref_mv_mode@),
            rates_zero(r.drl_mode@),
            rates_zero(r.inter_compound_mode@),
            rates_zero(r.switchable_interp@),
            rates_zero(r.motion_mode@),
            rates_zero(r.motion_mode1@),
            rates_zero(r.inter_intra@),
            rates_zero(r.inter_intra_mode@),
            rates_zero(r.wedge_inter_intra@),
            rates_zero(r.wedge_idx@),
            rates_zero(r.comp_group_idx@),
            rates_zero(r.comp_idx@),
            rates_zero(r.compound_type@),
    {
        InterFacBits {
            skip_mode: [[0; 2]; 3],
            intra_inter: [[0; 2]; 4],
            new_mv_mode: [[0; 2]; 6],
            zero_mv_mode: [[0; 2]; 2],
            ref_mv_mode: [[0; 2]; 6],
            drl_mode: [[0; 2]; 3],
            inter_compound_mode: [[0; 8]; 8],
            switchable_interp: [[0; 3]; 16],
            motion_mode: [[0; 3]; 22],
            motion_mode1: [[0; 2]; 22],
            inter_intra: [[0; 2]; 4],
            inter_intra_mode: [[0; 4]; 4],
            wedge_inter_intra: [[0; 2]; 22],
            wedge_idx: [[0; 16]; 22],
            comp_group_idx: [[0; 2]; 6],
            comp_idx: [[0; 2]; 6],
            compound_type: [[0; 2]; 22],
        }
    }
}

impl Default for InterFacBits {
    fn default() -> (r: Self)
        ensures
            inter_rates_wf(r),
            rates_zero(r.skip_mode@),
            rates_zero(r.intra_inter@),
            rates_zero(r.new_mv_mode@),
            rates_zero(r.zero_mv_mode@),
            rates_zero(r.ref_mv_mode@),
            rates_zero(r.drl_mode@),
            rates_zero(r.inter_compound_mode@),
            rates_zero(r.switchable_interp@),
            rates_zero(r.motion_mode@),
            rates_zero(r.motion_mode1@),
            rates_zero(r.inter_intra@),
            rates_zero(r.inter_intra_mode@),
            rates_zero(r.wedge_inter_intra@),
            rates_zero(r.wedge_idx@),
            rates_zero(r.comp_group_idx@),
            rates_zero(r.comp_idx@),
            rates_zero(r.compound_type@),
    {
        InterFacBits::zeroed()
    }
}

/// The symbol distributions the inter syntax is coded with.
pub struct InterCdfs {
    pub skip_mode_cdf: Vec<Vec<u16>>,
    pub intra_inter_cdf: Vec<Vec<u16>>,
    pub newmv_cdf: Vec<Vec<u16>>,
    pub zeromv_cdf: Vec<Vec<u16>>,
    pub refmv_cdf: Vec<Vec<u16>>,
    pub drl_cdf: Vec<Vec<u16>>,
    pub inter_compound_mode_cdf: Vec<Vec<u16>>,
    pub switchable_interp_cdf: Vec<Vec<u16>>,
    pub motion_mode_cdf: Vec<Vec<u16>>,
    pub obmc_cdf: Vec<Vec<u16>>,
    pub interintra_cdf: Vec<Vec<u16>>,
    pub interintra_mode_cdf: Vec<Vec<u16>>,
    pub wedge_interintra_cdf: Vec<Vec<u16>>,
    pub wedge_idx_cdf: Vec<Vec<u16>>,
    pub comp_group_idx_cdf: Vec<Vec<u16>>,
    pub compound_index_cdf: Vec<Vec<u16>>,
    pub compound_type_cdf: Vec<Vec<u16>>,
}

/// Every table has its rows, and every row is a distribution.
pub open spec fn inter_cdfs_wf(c: InterCdfs) -> bool {
    &&& cdf_table_wf(c.skip_mode_cdf@, 3, 2)
    &&& cdf_table_wf(c.intra_inter_cdf@, 4, 2)
    &&& cdf_table_wf(c.newmv_cdf@, 6, 2)
    &&& cdf_table_wf(c.zeromv_cdf@, 2, 2)
    &&& cdf_table_wf(c.refmv_cdf@, 6, 2)
    &&& cdf_table_wf(c.drl_cdf@, 3, 2)
    &&& cdf_table_wf(c.inter_compound_mode_cdf@, 8, 8)
    &&& cdf_table_wf(c.switchable_interp_cdf@, 16, 3)
    &&& cdf_table_wf(c.motion_mode_cdf@, 22, 3)
    &&& cdf_table_wf(c.obmc_cdf@, 22, 2)
    &&& cdf_table_wf(c.interintra_cdf@, 4, 2)
    &&& cdf_table_wf(c.interintra_mode_cdf@, 4, 4)
    &&& cdf_table_wf(c.wedge_interintra_cdf@, 22, 2)
    &&& cdf_table_wf(c.wedge_idx_cdf@, 22, 16)
    &&& cdf_table_wf(c.comp_group_idx_cdf@, 6, 2)
    &&& cdf_table_wf(c.compound_index_cdf@, 6, 2)
    &&& cdf_table_wf(c.compound_type_cdf@, 22, 2)
}

/// Row by row, `t` holds the symbol rates of `cdfs`.
pub open spec fn rates_of<const C: usize>(t: Seq<[i32; C]>, cdfs: Seq<Vec<u16>>) -> bool {
    &&& t.len() == cdfs.len()
    &&& forall|i: int, j: int|
        0 <= i < t.len() && 0 <= j < C ==> #[trigger] t[i][j] == cdf_rate(cdfs[i]@, j)
}

/// The rates of the first `n` symbols of a distribution.
fn symbol_rates(cdf: &Vec<u16>, n: usize) -> (r: Vec<i32>)
    requires
        cdf_wf(cdf@, n as int),
        n <= 16,
    ensures
        r@.len() == n,
        forall|i: int| 0 <= i < n ==> (#[trigger] r@[i]) == cdf_rate(cdf@, i) && 0 <= r@[i] <= 7680,
{
    let mut r: Vec<i32> = Vec::new();
    let mut i: usize = 0;
    while i < n
        invariant
            i <= n,
            r@.len() == i,
            forall|j: int| 0 <= j < i ==> #[trigger] r@[j] == 0,
        decreases n - i,
    {
        r.push(0);
        i = i + 1;
    }
    syntax_rate_from_cdf(&mut r, cdf);
    r
}

fn row2(cdf: &Vec<u16>) -> (row: [i32; 2])
    requires
        cdf_wf(cdf@, 2),
    ensures
        forall|j: int| 0 <= j < 2 ==> (#[trigger] row@[j]) == cdf_rate(cdf@, j) && 0 <= row@[j] <= 7680,
{
    let v: Vec<i32> = symbol_rates(cdf, 2);
    [v[0], v[1]]
}

fn row3(cdf: &Vec<u16>) -> (row: [i32; 3])
    requires
        cdf_wf(cdf@, 3),
    ensures
        forall|j: int| 0 <= j < 3 ==> (#[trigger] row@[j]) == cdf_rate(cdf@, j) && 0 <= row@[j] <= 7680,
{
    let v: Vec<i32> = symbol_rates(cdf, 3);
    [v[0], v[1], v[2]]
}

fn row4(cdf: &Vec<u16>) -> (row: [i32; 4])
    requires
        cdf_wf(cdf@, 4),
    ensures
        forall|j: int| 0 <= j < 4 ==> (#[trigger] row@[j]) == cdf_rate(cdf@, j) && 0 <= row@[j] <= 7680,
{
    let v: Vec<i32> = symbol_rates(cdf, 4);
    [v[0], v[1], v[2], v[3]]
}

fn row8(cdf: &Vec<u16>) -> (row: [i32; 8])
    requires
        cdf_wf(cdf@, 8),
    ensures
        forall|j: int| 0 <= j < 8 ==> (#[trigger] row@[j]) == cdf_rate(cdf@, j) && 0 <= row@[j] <= 7680,
{
    let v: Vec<i32> = symbol_rates(cdf, 8);
    [v[0], v[1], v[2], v[3], v[4], v[5], v[6], v[7]]
}

fn row16(cdf: &Vec<u16>) -> (row: [i32; 16])
    requires
        cdf_wf(cdf@, 16),
    ensures
        forall|j: int| 0 <= j < 16 ==> (#[trigger] row@[j]) == cdf_rate(cdf@, j) && 0 <= row@[j] <= 7680,
{
    let v: Vec<i32> = symbol_rates(cdf, 16);
    [v[0], v[1], v[2], v[3], v[4], v[5], v[6], v[7], v[8], v[9], v[10], v[11], v[12], v[13], v[14], v[15]]
}

fn table2x2(cdfs: &Vec<Vec<u16>>) -> (t: [[i32; 2]; 2])
    requires
        cdf_table_wf(cdfs@, 2, 2),
    ensures
        rates_of(t@, cdfs@),
        rates_ok(t@),
{
    let mut t: [[i32; 2]; 2] = [[0; 2]; 2];
    let mut i: usize = 0;
    while i < 2
        invariant
            i <= 2,
            cdf_table_wf(cdfs@, 2, 2),
            forall|k: int, j: int|
                0 <= k < i && 0 <= j < 2 ==> #[trigger] t[k][j] == cdf_rate(cdfs@[k]@, j) && 0
                    <= t[k][j] <= FAC_LIMIT,
        decreases 2 - i,
    {
        let row: [i32; 2] = row2(&cdfs[i]);
        t[i] = row;
        proof {
            assert forall|k: int, j: int| 0 <= k < i + 1 && 0 <= j < 2 implies #[trigger] t[k][j]
                == cdf_rate(cdfs@[k]@, j) && 0 <= t[k][j] <= FAC_LIMIT by {
                if k == i {
                    assert(t[k][j] == row@[j]);
                }
            }
        }
        i = i + 1;
    }
    t
}

fn table3x2(cdfs: &Vec<Vec<u16>>) -> (t: [[i32; 2]; 3])
    requires
        cdf_table_wf(cdfs@, 3, 2),
    ensures
        rates_of(t@, cdfs@),
        rates_ok(t@),
{
    let mut t: [[i32; 2]; 3] = [[0; 2]; 3];
    let mut i: usize = 0;
    while i < 3
        invariant
            i <= 3,
            cdf_table_wf(cdfs@, 3, 2),
            forall|k: int, j: int|
                0 <= k < i && 0 <= j < 2 ==> #[trigger] t[k][j] == cdf_rate(cdfs@[k]@, j) && 0
                    <= t[k][j] <= FAC_LIMIT,
        decreases 3 - i,
    {
        let row: [i32; 2] = row2(&cdfs[i]);
        t[i] = row;
        proof {
            assert forall|k: int, j: int| 0 <= k < i + 1 && 0 <= j < 2 implies #[trigger] t[k][j]
                == cdf_rate(cdfs@[k]@, j) && 0 <= t[k][j] <= FAC_LIMIT by {
                if k == i {
                    assert(t[k][j] == row@[j]);
                }
            }
        }
        i = i + 1;
    }
    t
}

fn table4x2(cdfs: &Vec<Vec<u16>>) -> (t: [[i32; 2]; 4])
    requires
        cdf_table_wf(cdfs@, 4, 2),
    ensures
        rates_of(t@, cdfs@),
        rates_ok(t@),
{
    let mut t: [[i32; 2]; 4] = [[0; 2]; 4];
    let mut i: usize = 0;
    while i < 4
        invariant
            i <= 4,
            cdf_table_wf(cdfs@, 4, 2),
            forall|k: int, j: int|
                0 <= k < i && 0 <= j < 2 ==> #[trigger] t[k][j] == cdf_rate(cdfs@[k]@, j) && 0
                    <= t[k][j] <= FAC_LIMIT,
        decreases 4 - i,
    {
        let row: [i32; 2] = row2(&cdfs[i]);
        t[i] = row;
        proof {
            assert forall|k: int, j: int| 0 <= k < i + 1 && 0 <= j < 2 implies #[trigger] t[k][j]
                == cdf_rate(cdfs@[k]@, j) && 0 <= t[k][j] <= FAC_LIMIT by {
                if k == i {
                    assert(t[k][j] == row@[j]);
                }
            }
        }
        i = i + 1;
    }
    t
}

fn table4x4(cdfs: &Vec<Vec<u16>>) -> (t: [[i32; 4]; 4])
    requires
        cdf_table_wf(cdfs@, 4, 4),
    ensures
        rates_of(t@, cdfs@),
        rates_ok(t@),
{
    let mut t: [[i32; 4]; 4] = [[0; 4]; 4];
    let mut i: usize = 0;
    while i < 4
        invariant
            i <= 4,
            cdf_table_wf(cdfs@, 4, 4),
            forall|k: int, j: int|
                0 <= k < i && 0 <= j < 4 ==> #[trigger] t[k][j] == cdf_rate(cdfs@[k]@, j) && 0
                    <= t[k][j] <= FAC_LIMIT,
        decreases 4 - i,
    {
        let row: [i32; 4] = row4(&cdfs[i]);
        t[i] = row;
        proof {
            assert forall|k: int, j: int| 0 <= k < i + 1 && 0 <= j < 4 implies #[trigger] t[k][j]
                == cdf_rate(cdfs@[k]@, j) && 0 <= t[k][j] <= FAC_LIMIT by {
                if k == i {
                    assert(t[k][j] == row@[j]);
                }
            }
        }
        i = i + 1;
    }
    t
}

fn table6x2(cdfs: &Vec<Vec<u16>>) -> (t: [[i32; 2]; 6])
    requires
        cdf_table_wf(cdfs@, 6, 2),
    ensures
        rates_of(t@, cdfs@),
        rates_ok(t@),
{
    let mut t: [[i32; 2]; 6] = [[0; 2]; 6];
    let mut i: usize = 0;
    while i < 6
        invariant
            i <= 6,
            cdf_table_wf(cdfs@, 6, 2),
            forall|k: int, j: int|
                0 <= k < i && 0 <= j < 2 ==> #[trigger] t[k][j] == cdf_rate(cdfs@[k]@, j) && 0
                    <= t[k][j] <= FAC_LIMIT,
        decreases 6 - i,
    {
        let row: [i32; 2] = row2(&cdfs[i]);
        t[i] = row;
        proof {
            assert forall|k: int, j: int| 0 <= k < i + 1 && 0 <= j < 2 implies #[trigger] t[k][j]
                == cdf_rate(cdfs@[k]@, j) && 0 <= t[k][j] <= FAC_LIMIT by {
                if k == i {
                    assert(t[k][j] == row@[j]);
                }
            }
        }
        i = i + 1;
    }
    t
}

fn table8x8(cdfs: &Vec<Vec<u16>>) -> (t: [[i32; 8]; 8])
    requires
        cdf_table_wf(cdfs@, 8, 8),
    ensures
        rates_of(t@, cdfs@),
        rates_ok(t@),
{
    let mut t: [[i32; 8]; 8] = [[0; 8]; 8];
    let mut i: usize = 0;
    while i < 8
        invariant
            i <= 8,
            cdf_table_wf(cdfs@, 8, 8),
            forall|k: int, j: int|
                0 <= k < i && 0 <= j < 8 ==> #[trigger] t[k][j] == cdf_rate(cdfs@[k]@, j) && 0
                    <= t[k][j] <= FAC_LIMIT,
        decreases 8 - i,
    {
        let row: [i32; 8] = row8(&cdfs[i]);
        t[i] = row;
        proof {
            assert forall|k: int, j: int| 0 <= k < i + 1 && 0 <= j < 8 implies #[trigger] t[k][j]
                == cdf_rate(cdfs@[k]@, j) && 0 <= t[k][j] <= FAC_LIMIT by {
                if k == i {
                    assert(t[k][j] == row@[j]);
                }
            }
        }
        i = i + 1;
    }
    t
}

fn table16x3(cdfs: &Vec<Vec<u16>>) -> (t: [[i32; 3]; 16])
    requires
        cdf_table_wf(cdfs@, 16, 3),
    ensures
        rates_of(t@, cdfs@),
        rates_ok(t@),
{
    let mut t: [[i32; 3]; 16] = [[0; 3]; 16];
    let mut i: usize = 0;
    while i < 16
        invariant
            i <= 16,
            cdf_table_wf(cdfs@, 16, 3),
            forall|k: int, j: int|
                0 <= k < i && 0 <= j < 3 ==> #[trigger] t[k][j] == cdf_rate(cdfs@[k]@, j) && 0
                    <= t[k][j] <= FAC_LIMIT,
        decreases 16 - i,
    {
        let row: [i32; 3] = row3(&cdfs[i]);
        t[i] = row;
        proof {
            assert forall|k: int, j: int| 0 <= k < i + 1 && 0 <= j < 3 implies #[trigger] t[k][j]
                == cdf_rate(cdfs@[k]@, j) && 0 <= t[k][j] <= FAC_LIMIT by {
                if k == i {
                    assert(t[k][j] == row@[j]);
                }
            }
        }
        i = i + 1;
    }
    t
}

fn table22x2(cdfs: &Vec<Vec<u16>>) -> (t: [[i32; 2]; 22])
    requires
        cdf_table_wf(cdfs@, 22, 2),
    ensures
        rates_of(t@, cdfs@),
        rates_ok(t@),
{
    let mut t: [[i32; 2]; 22] = [[0; 2]; 22];
    let mut i: usize = 0;
    while i < 22
        invariant
            i <= 22,
            cdf_table_wf(cdfs@, 22, 2),
            forall|k: int, j: int|
                0 <= k < i && 0 <= j < 2 ==> #[trigger] t[k][j] == cdf_rate(cdfs@[k]@, j) && 0
                    <= t[k][j] <= FAC_LIMIT,
        decreases 22 - i,
    {
        let row: [i32; 2] = row2(&cdfs[i]);
        t[i] = row;
        proof {
            assert forall|k: int, j: int| 0 <= k < i + 1 && 0 <= j < 2 implies #[trigger] t[k][j]
                == cdf_rate(cdfs@[k]@, j) && 0 <= t[k][j] <= FAC_LIMIT by {
                if k == i {
                    assert(t[k][j] == row@[j]);
                }
            }
        }
        i = i + 1;
    }
    t
}

fn table22x3(cdfs: &Vec<Vec<u16>>) -> (t: [[i32; 3]; 22])
    requires
        cdf_table_wf(cdfs@, 22, 3),
    ensures
        rates_of(t@, cdfs@),
        rates_ok(t@),
{
    let mut t: [[i32; 3]; 22] = [[0; 3]; 22];
    let mut i: usize = 0;
    while i < 22
        invariant
            i <= 22,
            cdf_table_wf(cdfs@, 22, 3),
            forall|k: int, j: int|
                0 <= k < i && 0 <= j < 3 ==> #[trigger] t[k][j] == cdf_rate(cdfs@[k]@, j) && 0
                    <= t[k][j] <= FAC_LIMIT,
        decreases 22 - i,
    {
        let row: [i32; 3] = row3(&cdfs[i]);
        t[i] = row;
        proof {
            assert forall|k: int, j: int| 0 <= k < i + 1 && 0 <= j < 3 implies #[trigger] t[k][j]
                == cdf_rate(cdfs@[k]@, j) && 0 <= t[k][j] <= FAC_LIMIT by {
                if k == i {
                    assert(t[k][j] == row@[j]);
                }
            }
        }
        i = i + 1;
    }
    t
}

fn table22x16(cdfs: &Vec<Vec<u16>>) -> (t: [[i32; 16]; 22])
    requires
        cdf_table_wf(cdfs@, 22, 16),
    ensures
        rates_of(t@, cdfs@),
        rates_ok(t@),
{
    let mut t: [[i32; 16]; 22] = [[0; 16]; 22];
    let mut i: usize = 0;
    while i < 22
        invariant
            i <= 22,
            cdf_table_wf(cdfs@, 22, 16),
            forall|k: int, j: int|
                0 <= k < i && 0 <= j < 16 ==> #[trigger] t[k][j] == cdf_rate(cdfs@[k]@, j) && 0
                    <= t[k][j] <= FAC_LIMIT,
        decreases 22 - i,
    {
        let row: [i32; 16] = row16(&cdfs[i]);
        t[i] = row;
        proof {
            assert forall|k: int, j: int| 0 <= k < i + 1 && 0 <= j < 16 implies #[trigger] t[k][j]
                == cdf_rate(cdfs@[k]@, j) && 0 <= t[k][j] <= FAC_LIMIT by {
                if k == i {
                    assert(t[k][j] == row@[j]);
                }
            }
        }
        i = i + 1;
    }
    t
}

impl InterFacBits {
    /// The rates of the inter syntax under the given distributions.
    pub fn from_cdfs(c: &InterCdfs) -> (r: Self)
        requires
            inter_cdfs_wf(*c),
        ensures
            inter_rates_wf(r),
            rates_of(r.skip_mode@, c.skip_mode_cdf@),
            rates_of(r.intra_inter@, c.intra_inter_cdf@),
            rates_of(r.new_mv_mode@, c.newmv_cdf@),
            rates_of(r.zero_mv_mode@, c.zeromv_cdf@),
            rates_of(r.ref_mv_mode@, c.refmv_cdf@),
            rates_of(r.drl_mode@, c.drl_cdf@),
            rates_of(r.inter_compound_mode@, c.inter_compound_mode_cdf@),
            rates_of(r.switchable_interp@, c.switchable_interp_cdf@),
            rates_of(r.motion_mode@, c.motion_mode_cdf@),
            rates_of(r.motion_mode1@, c.obmc_cdf@),
            rates_of(r.inter_intra@, c.interintra_cdf@),
            rates_of(r.inter_intra_mode@, c.interintra_mode_cdf@),
            rates_of(r.wedge_inter_intra@, c.wedge_interintra_cdf@),
            rates_of(r.wedge_idx@, c.wedge_idx_cdf@),
            rates_of(r.comp_group_idx@, c.comp_group_idx_cdf@),
            rates_of(r.comp_idx@, c.compound_index_cdf@),
            rates_of(r.compound_type@, c.compound_type_cdf@),
    {
        InterFacBits {
            skip_mode: table3x2(&c.skip_mode_cdf),
            intra_inter: table4x2(&c.intra_inter_cdf),
            new_mv_mode: table6x2(&c.newmv_cdf),
            zero_mv_mode: table2x2(&c.zeromv_cdf),
            ref_mv_mode: table6x2(&c.refmv_cdf),
            drl_mode: table3x2(&c.drl_cdf),
            inter_compound_mode: table8x8(&c.inter_compound_mode_cdf),
            switchable_interp: table16x3(&c.switchable_interp_cdf),
            motion_mode: table22x3(&c.motion_mode_cdf),
            motion_mode1: table22x2(&c.obmc_cdf),
            inter_intra: table4x2(&c.interintra_cdf),
            inter_intra_mode: table4x4(&c.interintra_mode_cdf),
            wedge_inter_intra: table22x2(&c.wedge_interintra_cdf),
            wedge_idx: table22x16(&c.wedge_idx_cdf),
            comp_group_idx: table6x2(&c.comp_group_idx_cdf),
            comp_idx: table6x2(&c.compound_index_cdf),
            compound_type: table22x2(&c.compound_type_cdf),
        }
    }
}

/// What the quick cost reads of a frame.
#[derive(Debug, Clone, Copy)]
pub struct InterFrame {
    pub allow_screen_content_tools: bool,
    /// Skip mode is available in the frame.
    pub skip_mode_flag: bool,
    /// Frame-level interpolation filter.
    pub interpolation_filter: u8,
    pub is_motion_mode_switchable: bool,
    pub enable_dual_filter: bool,
    pub enable_masked_compound: bool,
    /// Distance-weighted compounds are available.
    pub enable_jnt_comp: bool,
    pub enable_interintra_compound: bool,
    /// Kind of the global motion model of each reference.
    pub gm_wmtype: [TransformationType; 8],
}

/// What the quick cost reads of a block.
#[derive(Debug, Clone, Copy)]
pub struct InterBlock {
    pub bsize: BlockSize,
    pub skip_mode_ctx: usize,
    pub is_inter_ctx: usize,
    /// Context of the inter mode: an index for two references, three packed
    /// contexts for one.
    pub mode_context: i16,
    /// Length of the motion-vector candidate list.
    pub ref_mv_count: u8,
    /// Contexts of the first positions of the candidate list.
    pub drl_ctx: [usize; 3],
    /// Rate of the reference frames.
    pub ref_frames_num_bits: u64,
    /// Contexts of the vertical and the horizontal interpolation filter.
    pub interp_ctx: [usize; 2],
    pub comp_group_idx_ctx: usize,
    pub comp_index_ctx: usize,
    /// Nonzero: the light estimate. Two or more: it leaves out the rate of
    /// the reference frames as well.
    pub approx_inter_rate: u8,
    /// The interpolation filter is already decided.
    pub ifs_at_mds0: bool,
}

/// What the quick cost reads of a candidate.
#[derive(Debug, Clone, Copy)]
pub struct InterCandidate {
    pub mode: PredictionMode,
    pub ref_frame: [i8; 2],
    pub mv: [Mv; 2],
    pub pred_mv: [Mv; 2],
    /// Weighted rates of the two motion-vector differences.
    pub mv_bits: [u64; 2],
    pub drl_index: u8,
    /// Vertical filter in the low half, horizontal in the high half.
    pub interp_filters: u32,
    pub motion_mode: MotionMode,
    /// The richest motion mode the block may use.
    pub motion_mode_allowed: MotionMode,
    /// The mode and the references permit inter-intra prediction.
    pub interintra_allowed: bool,
    pub is_interintra_used: bool,
    pub interintra_mode: u8,
    pub use_wedge_interintra: bool,
    pub interintra_wedge_index: u8,
    pub comp_group_idx: u8,
    pub compound_idx: u8,
    pub interinter_comp_type: CompoundType,
    pub interinter_wedge_index: u8,
    pub skip_mode_allowed: bool,
}

/// Rates a quick cost leaves with the candidate.
#[derive(Debug, Clone, Copy, PartialEq, Eq, Structural)]
pub struct FastRate {
    pub luma: u32,
    pub chroma: u32,
}

impl Default for FastRate {
    fn default() -> (r: Self)
        ensures
            r == (FastRate { luma: 0, chroma: 0 }),
    {
        FastRate { luma: 0, chroma: 0 }
    }
}

/// A quick cost and the rates behind it.
#[derive(Debug, Clone, Copy, PartialEq, Eq, Structural)]
pub struct FastCost {
    pub cost: u64,
    pub rate: FastRate,
}

/// Bound on the rates that are handed in.
pub const GIVEN_RATE_LIMIT: u64 = 0xfff_ffff_ffff_ffff;

/// The filters of the priced directions exist.
pub open spec fn filters_ok(interpolation_filter: u8, interp_filters: u32, dual: bool) -> bool {
    interpolation_filter == SWITCHABLE ==> {
        &&& interp_filters % 0x1_0000 < 3
        &&& dual ==> interp_filters / 0x1_0000 < 3
    }
}

/// Contexts lie inside the tables and given rates below their bound.
pub open spec fn block_ok(b: InterBlock) -> bool {
    &&& b.skip_mode_ctx < 3
    &&& b.is_inter_ctx < 4
    &&& b.drl_ctx[0] < 3 && b.drl_ctx[1] < 3 && b.drl_ctx[2] < 3
    &&& b.interp_ctx[0] < 16 && b.interp_ctx[1] < 16
    &&& b.comp_group_idx_ctx < 6
    &&& b.comp_index_ctx < 6
    &&& b.ref_frames_num_bits <= GIVEN_RATE_LIMIT
}

/// The mode context has a table row for the mode.
pub open spec fn mode_context_ok(mode: PredictionMode, ctx: i16) -> bool {
    if mode.compound_index() is Some {
        0 <= ctx < 8
    } else {
        0 <= ctx && ctx as int % 8 < 6 && (ctx as int / 16) % 16 < 6
    }
}

/// The compound fields of a candidate have table entries.
pub open spec fn compound_ok(bsize: BlockSize, c: InterCandidate) -> bool {
    c.ref_frame[1] > 0 && c.comp_group_idx != 0 ==> {
        &&& uses_wedge(bsize) ==> c.interinter_comp_type is Wedge || c.interinter_comp_type is DiffWtd
        &&& c.interinter_comp_type is Wedge ==> c.interinter_wedge_index < 16
    }
}

/// A candidate can be priced in a frame and a block.
pub open spec fn inter_inputs_ok(f: InterFrame, b: InterBlock, c: InterCandidate) -> bool {
    &&& block_ok(b)
    &&& mode_context_ok(c.mode, b.mode_context)
    &&& 0 <= c.ref_frame[0] < 8
    &&& c.ref_frame[1] < 8
    &&& filters_ok(f.interpolation_filter, c.interp_filters, f.enable_dual_filter)
    &&& compound_ok(b.bsize, c)
    &&& c.interintra_mode < 4
    &&& c.interintra_wedge_index < 16
    &&& c.mv_bits[0] <= GIVEN_RATE_LIMIT
    &&& c.mv_bits[1] <= GIVEN_RATE_LIMIT
}

/// Rate of the interpolation filters: one direction, or two in a frame with
/// dual filters.
pub open spec fn switchable_bits(
    interpolation_filter: u8,
    interp_ctx: Seq<usize>,
    interp_filters: u32,
    dual: bool,
    t: InterFacBits,
) -> int {
    if interpolation_filter != SWITCHABLE {
        0
    } else {
        t.switchable_interp[interp_ctx[0] as int][interp_filters as int % 0x1_0000] + if dual {
            t.switchable_interp[interp_ctx[1] as int][interp_filters as int / 0x1_0000] as int
        } else {
            0
        }
    }
}

/// Rate of the interpolation filters of a candidate.
pub fn get_switchable_rate(
    interpolation_filter: u8,
    interp_ctx: [usize; 2],
    interp_filters: u32,
    enable_dual_filter: bool,
    t: &InterFacBits,
) -> (r: i32)
    requires
        inter_rates_wf(*t),
        interp_ctx[0] < 16,
        interp_ctx[1] < 16,
        filters_ok(interpolation_filter, interp_filters, enable_dual_filter),
    ensures
        r == switchable_bits(interpolation_filter, interp_ctx@, interp_filters, enable_dual_filter, *t),
        0 <= r <= 2 * FAC_LIMIT,
{
    if interpolation_filter != SWITCHABLE {
        return 0;
    }
    let first: i32 = t.switchable_interp[interp_ctx[0]][(interp_filters % 0x1_0000) as usize];
    if enable_dual_filter {
        first + t.switchable_interp[interp_ctx[1]][(interp_filters / 0x1_0000) as usize]
    } else {
        first
    }
}

/// A flag as a table column.
pub open spec fn column(flag: bool) -> int {
    if flag {
        1
    } else {
        0
    }
}

fn col(flag: bool) -> (r: usize)
    ensures
        r == column(flag),
        r < 2,
{
    if flag {
        1
    } else {
        0
    }
}

/// Rate of the way two predictions are combined.
pub open spec fn compound_bits(
    bsize: BlockSize,
    c: InterCandidate,
    f: InterFrame,
    comp_group_idx_ctx: usize,
    comp_index_ctx: usize,
    t: InterFacBits,
) -> int {
    let bi = bsize.index();
    if c.ref_frame[1] <= 0 {
        0
    } else {
        (if comp_ref_allowed(bsize) && f.enable_masked_compound {
            t.comp_group_idx[comp_group_idx_ctx as int][column(c.comp_group_idx != 0)] as int
        } else {
            0
        }) + (if c.comp_group_idx == 0 {
            if f.enable_jnt_comp {
                t.comp_idx[comp_index_ctx as int][column(c.compound_idx != 0)] as int
            } else {
                0
            }
        } else {
            (if interinter_used(CompoundType::Wedge, bsize) {
                t.compound_type[bi][column(c.interinter_comp_type is DiffWtd)] as int
            } else {
                0
            }) + (if c.interinter_comp_type is Wedge {
                t.wedge_idx[bi][c.interinter_wedge_index as int] as int
            } else {
                0
            }) + 512
        })
    }
}

/// Rate of the way two predictions are combined; nothing for a candidate
/// without a second inter reference.
pub fn get_compound_mode_rate(
    bsize: BlockSize,
    cand: &InterCandidate,
    frame: &InterFrame,
    comp_group_idx_ctx: usize,
    comp_index_ctx: usize,
    t: &InterFacBits,
) -> (r: u32)
    requires
        inter_rates_wf(*t),
        comp_group_idx_ctx < 6,
        comp_index_ctx < 6,
        compound_ok(bsize, *cand),
    ensures
        r == compound_bits(bsize, *cand, *frame, comp_group_idx_ctx, comp_index_ctx, *t),
        r <= 3 * FAC_LIMIT + 512,
{
    if cand.ref_frame[1] <= 0 {
        return 0;
    }
    let bi: usize = bsize.as_index();
    let mut comp_rate: u32 = 0;
    if is_any_masked_compound_used(bsize) && frame.enable_masked_compound {
        comp_rate = t.comp_group_idx[comp_group_idx_ctx][col(cand.comp_group_idx != 0)] as u32;
    }
    if cand.comp_group_idx == 0 {
        if frame.enable_jnt_comp {
            comp_rate = comp_rate + t.comp_idx[comp_index_ctx][col(cand.compound_idx != 0)] as u32;
        }
    } else {
        let wedge: bool = cand.interinter_comp_type == CompoundType::Wedge;
        if is_interinter_compound_used(CompoundType::Wedge, bsize) {
            let row: usize = col(cand.interinter_comp_type == CompoundType::DiffWtd);
            comp_rate = comp_rate + t.compound_type[bi][row] as u32;
        }
        if wedge {
            comp_rate = comp_rate + t.wedge_idx[bi][cand.interinter_wedge_index as usize] as u32;
        }
        comp_rate = comp_rate + 512;
    }
    comp_rate
}

/// Rate of the inter mode: one symbol for two references; for one, up to
/// three flags, each asking whether the mode is the next in line.
pub open spec fn mode_bits(mode: PredictionMode, ctx: int, t: InterFacBits) -> int {
    match mode.compound_index() {
        Some(off) => t.inter_compound_mode[ctx][off] as int,
        None => t.new_mv_mode[ctx % 8][column(!(mode is NewMv))] + if mode is NewMv {
            0
        } else {
            t.zero_mv_mode[(ctx / 8) % 2][column(!(mode is GlobalMv))] + if mode is GlobalMv {
                0
            } else {
                t.ref_mv_mode[(ctx / 16) % 16][column(!(mode is NearestMv))] as int
            }
        },
    }
}

fn inter_mode_rate(mode: PredictionMode, mode_context: i16, t: &InterFacBits) -> (r: u64)
    requires
        inter_rates_wf(*t),
        mode_context_ok(mode, mode_context),
    ensures
        r == mode_bits(mode, mode_context as int, *t),
        r <= 3 * FAC_LIMIT,
{
    let ctx: usize = mode_context as usize;
    match mode.compound_mode_index() {
        Some(off) => t.inter_compound_mode[ctx][off] as u64,
        None => {
            let newmv_ctx: usize = ctx % 8;
            if mode == PredictionMode::NewMv {
                return t.new_mv_mode[newmv_ctx][0] as u64;
            }
            let bits: u64 = t.new_mv_mode[newmv_ctx][1] as u64;
            let zero_mv_ctx: usize = (ctx / 8) % 2;
            if mode == PredictionMode::GlobalMv {
                return bits + t.zero_mv_mode[zero_mv_ctx][0] as u64;
            }
            let bits2: u64 = bits + t.zero_mv_mode[zero_mv_ctx][1] as u64;
            let ref_mv_ctx: usize = (ctx / 16) % 16;
            bits2 + t.ref_mv_mode[ref_mv_ctx][col(mode != PredictionMode::NearestMv)] as u64
        },
    }
}

/// Rate of choosing among two consecutive positions of the candidate list,
/// from `lo` on: for each that has a successor, a flag that says whether to
/// go on, until the chosen one.
pub open spec fn drl_walk(lo: int, drl_index: int, count: int, drl_ctx: Seq<usize>, t: InterFacBits) -> int {
    let first = if count > lo + 1 {
        t.drl_mode[drl_ctx[lo] as int][column(drl_index != 0)] as int
    } else {
        0
    };
    let second = if count > lo + 2 {
        t.drl_mode[drl_ctx[lo + 1] as int][column(drl_index != 1)] as int
    } else {
        0
    };
    first + if count > lo + 1 && drl_index == 0 {
        0
    } else {
        second
    }
}

/// Rate of the candidate-list position: the walk of the new vectors starts
/// at the top, that of the near vectors one below.
pub open spec fn drl_bits(
    mode: PredictionMode,
    drl_index: int,
    count: int,
    drl_ctx: Seq<usize>,
    t: InterFacBits,
) -> int {
    (if mode is NewMv || mode is NewNewMv {
        drl_walk(0, drl_index, count, drl_ctx, t)
    } else {
        0
    }) + (if mode.has_near() {
        drl_walk(1, drl_index, count, drl_ctx, t)
    } else {
        0
    })
}

fn drl_walk_rate(
    lo: usize,
    drl_index: u8,
    ref_mv_count: u8,
    drl_ctx: [usize; 3],
    t: &InterFacBits,
) -> (r: u64)
    requires
        inter_rates_wf(*t),
        lo <= 1,
        drl_ctx[0] < 3 && drl_ctx[1] < 3 && drl_ctx[2] < 3,
    ensures
        r == drl_walk(lo as int, drl_index as int, ref_mv_count as int, drl_ctx@, *t),
        r <= 2 * FAC_LIMIT,
{
    let mut bits: u64 = 0;
    let mut k: usize = 0;
    while k < 2
        invariant
            k <= 2,
            lo <= 1,
            inter_rates_wf(*t),
            drl_ctx[0] < 3 && drl_ctx[1] < 3 && drl_ctx[2] < 3,
            k == 0 ==> bits == 0,
            k == 1 ==> bits == (if ref_mv_count > lo + 1 {
                t.drl_mode[drl_ctx[lo as int] as int][column(drl_index != 0)] as int
            } else {
                0
            }) && !(ref_mv_count > lo + 1 && drl_index == 0),
            k == 2 ==> bits == drl_walk(lo as int, drl_index as int, ref_mv_count as int, drl_ctx@, *t),
            bits <= k * FAC_LIMIT,
        decreases 2 - k,
    {
        let idx: usize = lo + k;
        if ref_mv_count as usize > idx + 1 {
            let chosen: bool = drl_index as usize == k;
            assert(drl_ctx[idx as int] < 3);
            bits = bits + t.drl_mode[drl_ctx[idx]][col(!chosen)] as u64;
            if chosen {
                return bits;
            }
        }
        k = k + 1;
    }
    bits
}

fn drl_rate(
    mode: PredictionMode,
    drl_index: u8,
    ref_mv_count: u8,
    drl_ctx: [usize; 3],
    t: &InterFacBits,
) -> (r: u64)
    requires
        inter_rates_wf(*t),
        drl_ctx[0] < 3 && drl_ctx[1] < 3 && drl_ctx[2] < 3,
    ensures
        r == drl_bits(mode, drl_index as int, ref_mv_count as int, drl_ctx@, *t),
        r <= 4 * FAC_LIMIT,
{
    let mut bits: u64 = 0;
    if mode == PredictionMode::NewMv || mode == PredictionMode::NewNewMv {
        bits = drl_walk_rate(0, drl_index, ref_mv_count, drl_ctx, t);
    }
    if mode.have_nearmv() {
        bits = bits + drl_walk_rate(1, drl_index, ref_mv_count, drl_ctx, t);
    }
    bits
}

/// Rate of the interpolation filters where they are already decided and have
/// to be coded.
pub open spec fn ifs_bits(f: InterFrame, b: InterBlock, c: InterCandidate, t: InterFacBits) -> int {
    if b.ifs_at_mds0 && !(c.motion_mode is WarpedCausal) && !nontrans_global_motion(
        c.mode,
        b.bsize,
        c.ref_frame@,
        f.gm_wmtype@,
    ) {
        switchable_bits(f.interpolation_filter, b.interp_ctx@, c.interp_filters, f.enable_dual_filter, t)
    } else {
        0
    }
}

fn ifs_rate(frame: &InterFrame, block: &InterBlock, cand: &InterCandidate, t: &InterFacBits) -> (r: u32)
    requires
        inter_rates_wf(*t),
        inter_inputs_ok(*frame, *block, *cand),
    ensures
        r == ifs_bits(*frame, *block, *cand, *t),
        r <= 2 * FAC_LIMIT,
{
    if !block.ifs_at_mds0 || frame.interpolation_filter != SWITCHABLE || !is_interp_needed_md(
        cand.motion_mode,
        cand.mode,
        block.bsize,
        cand.ref_frame,
        &frame.gm_wmtype,
    ) {
        return 0;
    }
    get_switchable_rate(
        frame.interpolation_filter,
        block.interp_ctx,
        cand.interp_filters,
        frame.enable_dual_filter,
        t,
    ) as u32
}

/// The rate the cost is computed from: skip mode's where it is allowed and
/// cheaper.
pub open spec fn charged_rate(luma: int, skip_mode_allowed: bool, skip_mode_rate: int) -> int {
    if skip_mode_allowed && skip_mode_rate < luma {
        skip_mode_rate
    } else {
        luma
    }
}

/// The quick cost of a luma rate.
pub open spec fn is_fast_cost(
    r: FastCost,
    luma: int,
    b: InterBlock,
    c: InterCandidate,
    lambda: int,
    dist: int,
    t: InterFacBits,
) -> bool {
    &&& r.rate.luma == luma % 0x1_0000_0000
    &&& r.rate.chroma == 0
    &&& r.cost == rd(
        lambda,
        charged_rate(
            luma % 0x1_0000_0000,
            c.skip_mode_allowed,
            t.skip_mode[b.skip_mode_ctx as int][1] as int,
        ),
        dist,
    )
}

/// The quick cost of a luma rate fits in 64 bits.
pub open spec fn fast_cost_fits(
    luma: int,
    b: InterBlock,
    c: InterCandidate,
    lambda: int,
    dist: int,
    t: InterFacBits,
) -> bool {
    cost_fits(
        lambda,
        charged_rate(luma % 0x1_0000_0000, c.skip_mode_allowed, t.skip_mode[b.skip_mode_ctx as int][1] as int),
        dist,
    )
}

fn finish(
    luma_rate: u32,
    skip_mode_allowed: bool,
    skip_mode_ctx: usize,
    lambda: u64,
    luma_distortion: u64,
    t: &InterFacBits,
) -> (r: FastCost)
    requires
        inter_rates_wf(*t),
        skip_mode_ctx < 3,
        cost_fits(
            lambda as int,
            charged_rate(luma_rate as int, skip_mode_allowed, t.skip_mode[skip_mode_ctx as int][1] as int),
            luma_distortion as int,
        ),
    ensures
        r.rate == (FastRate { luma: luma_rate, chroma: 0 }),
        r.cost == rd(
            lambda as int,
            charged_rate(
                luma_rate as int,
                skip_mode_allowed,
                t.skip_mode[skip_mode_ctx as int][1] as int,
            ),
            luma_distortion as int,
        ),
{
    let rate: FastRate = FastRate { luma: luma_rate, chroma: 0 };
    let skip_mode_rate: u32 = t.skip_mode[skip_mode_ctx][1] as u32;
    if skip_mode_allowed && skip_mode_rate < luma_rate {
        return FastCost { cost: rdcost(lambda, skip_mode_rate as u64, luma_distortion), rate };
    }
    FastCost { cost: rdcost(lambda, luma_rate as u64, luma_distortion), rate }
}

/// Rate of a motion-vector difference, estimated from its size.
pub open spec fn light_mv_bits(mv: Mv, pred: Mv, factor: int) -> int {
    1296 + factor * (abs_int(mv.x - pred.x) + abs_int(mv.y - pred.y))
}

fn light_one(mv: Mv, pred: Mv, factor: u32) -> (r: u64)
    requires
        factor == 20 || factor == 50,
    ensures
        r == light_mv_bits(mv, pred, factor as int),
        r <= 6_554_796,
{
    let dx: i32 = abs_i32(mv.x as i32 - pred.x as i32);
    let dy: i32 = abs_i32(mv.y as i32 - pred.y as i32);
    if factor == 20 {
        (1296 + 20 * (dx + dy)) as u64
    } else {
        (1296 + 50 * (dx + dy)) as u64
    }
}

/// Estimated rate of the differences a mode codes.
pub open spec fn light_mv_total(c: InterCandidate, factor: int) -> int {
    (if c.mode.codes_first() {
        light_mv_bits(c.mv[0], c.pred_mv[0], factor)
    } else {
        0
    }) + (if c.mode.codes_second() {
        light_mv_bits(c.mv[1], c.pred_mv[1], factor)
    } else {
        0
    })
}

fn light_mv_rate(cand: &InterCandidate, factor: u32) -> (r: u64)
    requires
        factor == 20 || factor == 50,
    ensures
        r == light_mv_total(*cand, factor as int),
        r <= 13_109_592,
{
    let (first, second) = cand.mode.coded_mvs();
    let mut bits: u64 = 0;
    if first {
        bits = light_one(cand.mv[0], cand.pred_mv[0], factor);
    }
    if second {
        bits = bits + light_one(cand.mv[1], cand.pred_mv[1], factor);
    }
    bits
}

/// Rate of saying that the block is inter and not in skip mode.
pub open spec fn header_bits(f: InterFrame, b: InterBlock, t: InterFacBits) -> int {
    t.intra_inter[b.is_inter_ctx as int][1] + if f.skip_mode_flag && comp_ref_allowed(b.bsize) {
        t.skip_mode[b.skip_mode_ctx as int][0] as int
    } else {
        0
    }
}

fn header_rate(frame: &InterFrame, block: &InterBlock, t: &InterFacBits) -> (r: u64)
    requires
        inter_rates_wf(*t),
        block_ok(*block),
    ensures
        r == header_bits(*frame, *block, *t),
        r <= 2 * FAC_LIMIT,
{
    let is_inter_rate: u64 = t.intra_inter[block.is_inter_ctx][1] as u64;
    if frame.skip_mode_flag && is_comp_ref_allowed(block.bsize) {
        is_inter_rate + t.skip_mode[block.skip_mode_ctx][0] as u64
    } else {
        is_inter_rate
    }
}

/// Weight of a vector difference in the light estimate.
pub open spec fn light_factor(f: InterFrame) -> int {
    if f.allow_screen_content_tools {
        20
    } else {
        50
    }
}

/// Rate of a candidate, by the light estimate.
pub open spec fn light_bits(f: InterFrame, b: InterBlock, c: InterCandidate, t: InterFacBits) -> int {
    (if b.approx_inter_rate < 2 {
        b.ref_frames_num_bits as int
    } else {
        0
    }) + header_bits(f, b, t) + mode_bits(c.mode, b.mode_context as int, t) + drl_bits(
        c.mode,
        c.drl_index as int,
        b.ref_mv_count as int,
        b.drl_ctx@,
        t,
    ) + light_mv_total(c, light_factor(f)) + ifs_bits(f, b, c, t)
}

/// Quick cost by the light estimate: motion-vector rates from the size of
/// the difference, no motion mode, no inter-intra and no compound syntax.
pub fn inter_fast_cost_light(
    frame: &InterFrame,
    block: &InterBlock,
    cand: &InterCandidate,
    lambda: u64,
    luma_distortion: u64,
    t: &InterFacBits,
) -> (r: FastCost)
    requires
        inter_rates_wf(*t),
        inter_inputs_ok(*frame, *block, *cand),
        fast_cost_fits(
            light_bits(*frame, *block, *cand, *t),
            *block,
            *cand,
            lambda as int,
            luma_distortion as int,
            *t,
        ),
    ensures
        is_fast_cost(
            r,
            light_bits(*frame, *block, *cand, *t),
            *block,
            *cand,
            lambda as int,
            luma_distortion as int,
            *t,
        ),
{
    let reference_picture_bits: u64 = if block.approx_inter_rate < 2 {
        block.ref_frames_num_bits
    } else {
        0
    };
    let inter_mode_bits: u64 = inter_mode_rate(cand.mode, block.mode_context, t) + drl_rate(
        cand.mode,
        cand.drl_index,
        block.ref_mv_count,
        block.drl_ctx,
        t,
    );
    let factor: u32 = if frame.allow_screen_content_tools {
        20
    } else {
        50
    };
    let mv_rate: u64 = light_mv_rate(cand, factor);
    let ifs: u32 = ifs_rate(frame, block, cand, t);
    let luma_rate: u32 = low_u32(
        reference_picture_bits + header_rate(frame, block, t) + inter_mode_bits + mv_rate + ifs as u64,
    );
    finish(luma_rate, cand.skip_mode_allowed, block.skip_mode_ctx, lambda, luma_distortion, t)
}

/// Rate of the motion-vector differences a mode codes.
pub open spec fn coded_mv_bits(c: InterCandidate) -> int {
    (if c.mode.codes_first() {
        c.mv_bits[0] as int
    } else {
        0
    }) + (if c.mode.codes_second() {
        c.mv_bits[1] as int
    } else {
        0
    })
}

/// Rate of the inter-intra syntax. The flag is paid wherever the tool is
/// available, used or not.
pub open spec fn interintra_bits(f: InterFrame, b: InterBlock, c: InterCandidate, t: InterFacBits) -> int {
    let bi = b.bsize.index();
    let group = SIZE_GROUP_LOOKUP[bi] as int;
    if f.enable_interintra_compound && c.interintra_allowed {
        t.inter_intra[group][column(c.is_interintra_used)] + if c.is_interintra_used {
            t.inter_intra_mode[group][c.interintra_mode as int] + if uses_wedge(b.bsize) {
                t.wedge_inter_intra[bi][column(c.use_wedge_interintra)] + if c.use_wedge_interintra {
                    t.wedge_idx[bi][c.interintra_wedge_index as int] as int
                } else {
                    0
                }
            } else {
                0
            }
        } else {
            0
        }
    } else {
        0
    }
}

fn interintra_rate(frame: &InterFrame, block: &InterBlock, cand: &InterCandidate, t: &InterFacBits) -> (r: u64)
    requires
        inter_rates_wf(*t),
        inter_inputs_ok(*frame, *block, *cand),
    ensures
        r == interintra_bits(*frame, *block, *cand, *t),
        r <= 4 * FAC_LIMIT,
{
    let bi: usize = block.bsize.as_index();
    if !frame.enable_interintra_compound || !cand.interintra_allowed {
        return 0;
    }
    let group: usize = SIZE_GROUP_LOOKUP[bi] as usize;
    assert(group < 4);
    let mut bits: u64 = t.inter_intra[group][col(cand.is_interintra_used)] as u64;
    if cand.is_interintra_used {
        bits = bits + t.inter_intra_mode[group][cand.interintra_mode as usize] as u64;
        if is_interintra_wedge_used(block.bsize) {
            bits = bits + t.wedge_inter_intra[bi][col(cand.use_wedge_interintra)] as u64;
            if cand.use_wedge_interintra {
                bits = bits + t.wedge_idx[bi][cand.interintra_wedge_index as usize] as u64;
            }
        }
    }
    bits
}

/// Position of a motion mode in its symbol.
pub open spec fn motion_column(m: MotionMode) -> int {
    match m {
        MotionMode::SimpleTranslation => 0,
        MotionMode::ObmcCausal => 1,
        MotionMode::WarpedCausal => 2,
    }
}

/// Rate of the motion mode: nothing, one flag or one symbol, by the richest
/// mode the block may use.
pub open spec fn motion_mode_bits(f: InterFrame, b: InterBlock, c: InterCandidate, t: InterFacBits) -> int {
    let bi = b.bsize.index();
    if c.mode.compound_index() is None && f.is_motion_mode_switchable && c.ref_frame[1] != 0 {
        match c.motion_mode_allowed {
            MotionMode::SimpleTranslation => 0,
            MotionMode::ObmcCausal => t.motion_mode1[bi][column(c.motion_mode is ObmcCausal)] as int,
            MotionMode::WarpedCausal => t.motion_mode[bi][motion_column(c.motion_mode)] as int,
        }
    } else {
        0
    }
}

fn motion_mode_rate(frame: &InterFrame, block: &InterBlock, cand: &InterCandidate, t: &InterFacBits) -> (r: u64)
    requires
        inter_rates_wf(*t),
    ensures
        r == motion_mode_bits(*frame, *block, *cand, *t),
        r <= FAC_LIMIT,
{
    let bi: usize = block.bsize.as_index();
    if cand.mode.compound_mode_index().is_some() || !frame.is_motion_mode_switchable || cand.ref_frame[1]
        == 0 {
        return 0;
    }
    match cand.motion_mode_allowed {
        MotionMode::SimpleTranslation => 0,
        MotionMode::ObmcCausal => {
            t.motion_mode1[bi][col(cand.motion_mode == MotionMode::ObmcCausal)] as u64
        },
        MotionMode::WarpedCausal => {
            let m: usize = match cand.motion_mode {
                MotionMode::SimpleTranslation => 0,
                MotionMode::ObmcCausal => 1,
                MotionMode::WarpedCausal => 2,
            };
            t.motion_mode[bi][m] as u64
        },
    }
}

/// Rate of a candidate.
pub open spec fn inter_bits(f: InterFrame, b: InterBlock, c: InterCandidate, t: InterFacBits) -> int {
    if b.approx_inter_rate != 0 {
        light_bits(f, b, c, t)
    } else {
        b.ref_frames_num_bits + header_bits(f, b, t) + mode_bits(c.mode, b.mode_context as int, t)
            + drl_bits(c.mode, c.drl_index as int, b.ref_mv_count as int, b.drl_ctx@, t)
            + coded_mv_bits(c) + interintra_bits(f, b, c, t) + motion_mode_bits(f, b, c, t)
            + compound_bits(b.bsize, c, f, b.comp_group_idx_ctx, b.comp_index_ctx, t)
            + ifs_bits(f, b, c, t)
    }
}

fn coded_mv_rate(cand: &InterCandidate) -> (r: u64)
    requires
        cand.mv_bits[0] <= GIVEN_RATE_LIMIT,
        cand.mv_bits[1] <= GIVEN_RATE_LIMIT,
    ensures
        r == coded_mv_bits(*cand),
        r <= 2 * GIVEN_RATE_LIMIT,
{
    let (first, second) = cand.mode.coded_mvs();
    let mut mv_rate: u64 = 0;
    if first {
        mv_rate = cand.mv_bits[0];
    }
    if second {
        mv_rate = mv_rate + cand.mv_bits[1];
    }
    mv_rate
}

fn full_rate(frame: &InterFrame, block: &InterBlock, cand: &InterCandidate, t: &InterFacBits) -> (r: u64)
    requires
        inter_rates_wf(*t),
        inter_inputs_ok(*frame, *block, *cand),
        block.approx_inter_rate == 0,
    ensures
        r == inter_bits(*frame, *block, *cand, *t),
{
    let mode_rate: u64 = inter_mode_rate(cand.mode, block.mode_context, t);
    let drl: u64 = drl_rate(cand.mode, cand.drl_index, block.ref_mv_count, block.drl_ctx, t);
    let mv_rate: u64 = coded_mv_rate(cand);
    let interintra: u64 = interintra_rate(frame, block, cand, t);
    let motion: u64 = motion_mode_rate(frame, block, cand, t);
    let compound: u32 = get_compound_mode_rate(
        block.bsize,
        cand,
        frame,
        block.comp_group_idx_ctx,
        block.comp_index_ctx,
        t,
    );
    let ifs: u32 = ifs_rate(frame, block, cand, t);
    let header: u64 = header_rate(frame, block, t);
    block.ref_frames_num_bits + header + mode_rate + drl + mv_rate + interintra + motion + compound as u64
        + ifs as u64
}

/// Quick cost of an inter candidate.
pub fn inter_fast_cost(
    frame: &InterFrame,
    block: &InterBlock,
    cand: &InterCandidate,
    lambda: u64,
    luma_distortion: u64,
    t: &InterFacBits,
) -> (r: FastCost)
    requires
        inter_rates_wf(*t),
        inter_inputs_ok(*frame, *block, *cand),
        fast_cost_fits(
            inter_bits(*frame, *block, *cand, *t),
            *block,
            *cand,
            lambda as int,
            luma_distortion as int,
            *t,
        ),
    ensures
        is_fast_cost(
            r,
            inter_bits(*frame, *block, *cand, *t),
            *block,
            *cand,
            lambda as int,
            luma_distortion as int,
            *t,
        ),
{
    if block.approx_inter_rate != 0 {
        return inter_fast_cost_light(frame, block, cand, lambda, luma_distortion, t);
    }
    let luma_rate: u32 = low_u32(full_rate(frame, block, cand, t));
    finish(luma_rate, cand.skip_mode_allowed, block.skip_mode_ctx, lambda, luma_distortion, t)
}

/// Offering skip mode to a candidate never raises its cost, and it leaves the
/// rate that is kept with the candidate alone.
pub proof fn skip_mode_never_raises_the_fast_cost(
    f: InterFrame,
    b: InterBlock,
    c: InterCandidate,
    lambda: int,
    dist: int,
    t: InterFacBits,
    with: FastCost,
    without: FastCost,
)
    requires
        0 <= lambda,
        c.skip_mode_allowed,
        is_fast_cost(with, inter_bits(f, b, c, t), b, c, lambda, dist, t),
        is_fast_cost(
            without,
            inter_bits(f, b, c, t),
            b,
            (InterCandidate { skip_mode_allowed: false, ..c }),
            lambda,
            dist,
            t,
        ),
    ensures
        with.cost <= without.cost,
        with.rate == without.rate,
{
    let luma = inter_bits(f, b, c, t) % 0x1_0000_0000;
    let skip = t.skip_mode[b.skip_mode_ctx as int][1] as int;
    crate::rd_cost::rd_is_monotone_in_rate(lambda, charged_rate(luma, true, skip), luma, dist);
}

} // verus!
