//! The final cost of a candidate, and what it decides: whether the residual
//! is dropped, and whether the block is coded in skip mode.

use vstd::arithmetic::mul::lemma_mul_nonnegative;
use vstd::arithmetic::power2::{lemma2_to64, lemma2_to64_rest, lemma_pow2_strictly_increases, pow2};
use vstd::bits::lemma_u64_shl_is_mul;
use vstd::prelude::*;

use crate::arith::low_u32;
use crate::rd_cost::{cost_fits, rd, rdcost};
use crate::types::BlockSize;

verus! {

/// Contexts of the coefficient-skip flag.
pub const SKIP_CONTEXTS: usize = 3;

/// Contexts of the skip-mode flag.
pub const SKIP_MODE_CONTEXTS: usize = 3;

/// Rates of the two skip flags, by context and value.
#[derive(Debug, Clone, Copy)]
pub struct SkipFacBits {
    pub skip: [[i32; 2]; 3],
    pub skip_mode: [[i32; 2]; 3],
}

impl Default for SkipFacBits {
    /// All-zero rates.
    fn default() -> (r: Self)
        ensures
            forall|i: int, j: int| 0 <= i < 3 && 0 <= j < 2 ==> #[trigger] r.skip[i][j] == 0,
            forall|i: int, j: int| 0 <= i < 3 && 0 <= j < 2 ==> #[trigger] r.skip_mode[i][j] == 0,
    {
        SkipFacBits { skip: [[0; 2]; 3], skip_mode: [[0; 2]; 3] }
    }
}

/// Distortions of one plane, with the residual coded and without.
#[derive(Debug, Clone, Copy)]
pub struct PlaneDist {
    pub ssd_nonskip: u64,
    pub ssd_skip: u64,
    pub ssim_nonskip: u64,
    pub ssim_skip: u64,
}

impl Default for PlaneDist {
    /// No distortion.
    fn default() -> (r: Self)
        ensures
            r == (PlaneDist { ssd_nonskip: 0, ssd_skip: 0, ssim_nonskip: 0, ssim_skip: 0 }),
    {
        PlaneDist { ssd_nonskip: 0, ssd_skip: 0, ssim_nonskip: 0, ssim_skip: 0 }
    }
}

/// Distortions of the three planes.
#[derive(Debug, Clone, Copy)]
pub struct FullDist {
    pub y: PlaneDist,
    pub cb: PlaneDist,
    pub cr: PlaneDist,
}

impl Default for FullDist {
    /// No distortion.
    fn default() -> (r: Self)
        ensures
            ({
                let none = PlaneDist { ssd_nonskip: 0, ssd_skip: 0, ssim_nonskip: 0, ssim_skip: 0 };
                r == (FullDist { y: none, cb: none, cr: none })
            }),
    {
        FullDist { y: PlaneDist::default(), cb: PlaneDist::default(), cr: PlaneDist::default() }
    }
}

impl FullDist {
    /// Squared error, with the residual dropped or coded.
    pub open spec fn ssd(self, skip: bool) -> int {
        if skip {
            self.y.ssd_skip + self.cb.ssd_skip + self.cr.ssd_skip
        } else {
            self.y.ssd_nonskip + self.cb.ssd_nonskip + self.cr.ssd_nonskip
        }
    }

    /// Structural error, with the residual dropped or coded.
    pub open spec fn ssim(self, skip: bool) -> int {
        if skip {
            self.y.ssim_skip + self.cb.ssim_skip + self.cr.ssim_skip
        } else {
            self.y.ssim_nonskip + self.cb.ssim_nonskip + self.cr.ssim_nonskip
        }
    }

    fn ssd_sum(&self, skip: bool) -> (r: u64)
        requires
            self.ssd(skip) <= u64::MAX,
        ensures
            r == self.ssd(skip),
    {
        if skip {
            self.y.ssd_skip + self.cb.ssd_skip + self.cr.ssd_skip
        } else {
            self.y.ssd_nonskip + self.cb.ssd_nonskip + self.cr.ssd_nonskip
        }
    }

    fn ssim_sum(&self, skip: bool) -> (r: u64)
        requires
            self.ssim(skip) <= u64::MAX,
        ensures
            r == self.ssim(skip),
    {
        if skip {
            self.y.ssim_skip + self.cb.ssim_skip + self.cr.ssim_skip
        } else {
            self.y.ssim_nonskip + self.cb.ssim_nonskip + self.cr.ssim_nonskip
        }
    }
}

/// What the final cost reads of a block and its candidate.
#[derive(Debug, Clone, Copy)]
pub struct FullCostInputs {
    pub skip_coeff_ctx: usize,
    pub skip_mode_ctx: usize,
    /// The structural cost is wanted too.
    pub update_full_cost_ssim: bool,
    pub shut_fast_rate: bool,
    pub tx_mode_select: bool,
    pub lossless_segment: bool,
    /// Dropping the residual is allowed.
    pub blk_skip_decision: bool,
    pub block_has_coeff: bool,
    pub is_inter_mode: bool,
    pub skip_mode_allowed: bool,
    /// Transform-size rate with coefficients.
    pub non_skip_tx_size_bits: u64,
    /// Transform-size rate without coefficients.
    pub skip_tx_size_bits: u64,
    /// Rate of everything but the residual.
    pub fast_rate: u64,
}

/// The final cost and its decisions.
#[derive(Debug, Clone, Copy, PartialEq, Eq)]
pub struct FullCostResult {
    pub cost: u64,
    pub total_rate: u64,
    pub full_dist: u64,
    pub full_cost_ssim: Option<u64>,
    /// The residual is dropped.
    pub forced_coeff_skip: bool,
    /// The block is coded in skip mode.
    pub skip_mode: bool,
}

impl FullCostResult {
    /// The distortion as the candidate keeps it: its low 32 bits.
    pub fn full_dist_u32(&self) -> (r: u32)
        ensures
            r == self.full_dist % 0x1_0000_0000,
    {
        low_u32(self.full_dist)
    }
}

/// The cost of a block in the first partitioning pass.
pub fn full_cost_pd0(
    y_coeff_bits: u64,
    y_distortion_nonskip: u64,
    partition_none_fac_bits_ctx0: i32,
    skip_fac_bits_ctx0_nonskip: i32,
    lambda: u64,
) -> (r: u64)
    requires
        0 <= partition_none_fac_bits_ctx0,
        0 <= skip_fac_bits_ctx0_nonskip,
        cost_fits(
            lambda as int,
            y_coeff_bits + skip_fac_bits_ctx0_nonskip + partition_none_fac_bits_ctx0,
            y_distortion_nonskip as int,
        ),
    ensures
        r == rd(
            lambda as int,
            y_coeff_bits + skip_fac_bits_ctx0_nonskip + partition_none_fac_bits_ctx0,
            y_distortion_nonskip as int,
        ),
{
    let rate: u64 = y_coeff_bits + skip_fac_bits_ctx0_nonskip as u64 + partition_none_fac_bits_ctx0 as u64;
    rdcost(lambda, rate, y_distortion_nonskip)
}

/// Transform sizes are signalled, so they are priced.
pub open spec fn prices_tx_size(inputs: FullCostInputs) -> bool {
    !inputs.shut_fast_rate && inputs.tx_mode_select
}

/// Rate of the residual when it is coded.
pub open spec fn coded_rate(inputs: FullCostInputs, bits: int, t: SkipFacBits) -> int {
    bits + (if prices_tx_size(inputs) && inputs.block_has_coeff {
        inputs.non_skip_tx_size_bits as int
    } else {
        0
    }) + t.skip[inputs.skip_coeff_ctx as int][0]
}

/// Rate of the residual when it is dropped.
pub open spec fn dropped_rate(inputs: FullCostInputs, t: SkipFacBits) -> int {
    t.skip[inputs.skip_coeff_ctx as int][1] + if prices_tx_size(inputs) {
        inputs.skip_tx_size_bits as int
    } else {
        0
    }
}

/// Dropping the residual of an inter block is both allowed and strictly
/// cheaper.
pub open spec fn drops_residual(
    inputs: FullCostInputs,
    dist: FullDist,
    bits: int,
    lambda: int,
    t: SkipFacBits,
) -> bool {
    &&& !inputs.lossless_segment
    &&& inputs.blk_skip_decision
    &&& inputs.block_has_coeff
    &&& inputs.is_inter_mode
    &&& rd(lambda, dropped_rate(inputs, t), dist.ssd(true)) < rd(
        lambda,
        coded_rate(inputs, bits, t),
        dist.ssd(false),
    )
}

/// Rate of the block outside skip mode.
pub open spec fn regular_rate(
    inputs: FullCostInputs,
    dist: FullDist,
    bits: int,
    lambda: int,
    t: SkipFacBits,
) -> int {
    inputs.fast_rate + if inputs.block_has_coeff && !drops_residual(inputs, dist, bits, lambda, t) {
        coded_rate(inputs, bits, t)
    } else {
        dropped_rate(inputs, t)
    }
}

/// Skip mode is allowed and costs no more than the regular block.
pub open spec fn takes_skip_mode(
    inputs: FullCostInputs,
    dist: FullDist,
    bits: int,
    lambda: int,
    t: SkipFacBits,
) -> bool {
    inputs.skip_mode_allowed && rd(
        lambda,
        t.skip_mode[inputs.skip_mode_ctx as int][1] as int,
        dist.ssd(true),
    ) <= rd(
        lambda,
        regular_rate(inputs, dist, bits, lambda, t),
        dist.ssd(drops_residual(inputs, dist, bits, lambda, t)),
    )
}

/// `r` is the final cost of a candidate.
pub open spec fn is_full_cost(
    r: FullCostResult,
    inputs: FullCostInputs,
    dist: FullDist,
    bits: int,
    lambda: int,
    t: SkipFacBits,
) -> bool {
    let dropped = drops_residual(inputs, dist, bits, lambda, t);
    let skip_mode = takes_skip_mode(inputs, dist, bits, lambda, t);
    let rate = if skip_mode {
        t.skip_mode[inputs.skip_mode_ctx as int][1] as int
    } else {
        regular_rate(inputs, dist, bits, lambda, t)
    };
    &&& r.forced_coeff_skip == dropped
    &&& r.skip_mode == skip_mode
    &&& r.total_rate == rate
    &&& r.full_dist == dist.ssd(dropped || skip_mode)
    &&& r.cost == rd(lambda, rate, dist.ssd(dropped || skip_mode))
    &&& match r.full_cost_ssim {
        Some(c) => inputs.update_full_cost_ssim && c == rd(lambda, rate, dist.ssim(dropped || skip_mode)),
        None => !inputs.update_full_cost_ssim,
    }
}

/// Dropping the residual is allowed.
pub open spec fn may_drop(inputs: FullCostInputs) -> bool {
    !inputs.lossless_segment && inputs.blk_skip_decision && inputs.block_has_coeff && inputs.is_inter_mode
}

/// Contexts lie inside the tables, and every sum and cost that is made fits
/// in 64 bits.
pub open spec fn full_cost_fits(
    inputs: FullCostInputs,
    dist: FullDist,
    bits: int,
    lambda: int,
    t: SkipFacBits,
) -> bool {
    let dropped = drops_residual(inputs, dist, bits, lambda, t);
    let skip_mode = takes_skip_mode(inputs, dist, bits, lambda, t);
    let skip_rate = t.skip_mode[inputs.skip_mode_ctx as int][1] as int;
    let rate = regular_rate(inputs, dist, bits, lambda, t);
    &&& inputs.skip_coeff_ctx < 3
    &&& inputs.skip_mode_ctx < 3
    &&& 0 <= t.skip[inputs.skip_coeff_ctx as int][0]
    &&& 0 <= t.skip[inputs.skip_coeff_ctx as int][1]
    &&& 0 <= skip_rate
    &&& dist.ssd(false) <= u64::MAX
    &&& dist.ssim(false) <= u64::MAX
    &&& may_drop(inputs) || inputs.skip_mode_allowed ==> dist.ssd(true) <= u64::MAX
    &&& dropped || (inputs.skip_mode_allowed && inputs.update_full_cost_ssim) ==> dist.ssim(true) <= u64::MAX
    &&& may_drop(inputs) ==> cost_fits(lambda, coded_rate(inputs, bits, t), dist.ssd(false)) && cost_fits(
        lambda,
        dropped_rate(inputs, t),
        dist.ssd(true),
    )
    &&& cost_fits(lambda, rate, dist.ssd(dropped))
    &&& inputs.skip_mode_allowed ==> cost_fits(lambda, skip_rate, dist.ssd(true))
    &&& inputs.update_full_cost_ssim ==> cost_fits(
        lambda,
        if skip_mode {
            skip_rate
        } else {
            rate
        },
        dist.ssim(dropped || skip_mode),
    )
}

/// The final cost of a candidate.
pub fn full_cost(
    inputs: &FullCostInputs,
    dist: &FullDist,
    y_coeff_bits: u64,
    cb_coeff_bits: u64,
    cr_coeff_bits: u64,
    lambda: u64,
    t: &SkipFacBits,
) -> (r: FullCostResult)
    requires
        full_cost_fits(
            *inputs,
            *dist,
            y_coeff_bits + cb_coeff_bits + cr_coeff_bits,
            lambda as int,
            *t,
        ),
    ensures
        is_full_cost(
            r,
            *inputs,
            *dist,
            y_coeff_bits + cb_coeff_bits + cr_coeff_bits,
            lambda as int,
            *t,
        ),
{
    let prices: bool = !inputs.shut_fast_rate && inputs.tx_mode_select;
    let non_skip_tx: u64 = if prices && inputs.block_has_coeff {
        inputs.non_skip_tx_size_bits
    } else {
        0
    };
    let skip_tx: u64 = if prices {
        inputs.skip_tx_size_bits
    } else {
        0
    };
    let ctx: usize = inputs.skip_coeff_ctx;
    let ghost bits: int = y_coeff_bits + cb_coeff_bits + cr_coeff_bits;
    let may: bool = !inputs.lossless_segment && inputs.blk_skip_decision && inputs.block_has_coeff
        && inputs.is_inter_mode;
    let drops: bool = may && {
        let coded: u64 = y_coeff_bits + cb_coeff_bits + cr_coeff_bits + non_skip_tx + t.skip[ctx][0] as u64;
        let dropped: u64 = t.skip[ctx][1] as u64 + skip_tx;
        rdcost(lambda, dropped, dist.ssd_sum(true)) < rdcost(lambda, coded, dist.ssd_sum(false))
    };
    assert(drops == drops_residual(*inputs, *dist, bits, lambda as int, *t));
    let rate: u64 = if inputs.block_has_coeff && !drops {
        inputs.fast_rate + (y_coeff_bits + cb_coeff_bits + cr_coeff_bits + non_skip_tx + t.skip[ctx][0] as u64)
    } else {
        inputs.fast_rate + (t.skip[ctx][1] as u64 + skip_tx)
    };
    let distortion: u64 = dist.ssd_sum(drops);
    let mut cost: u64 = rdcost(lambda, rate, distortion);
    let mut total_rate: u64 = rate;
    let mut full_dist: u64 = distortion;
    let mut skip_mode: bool = false;
    if inputs.skip_mode_allowed {
        let skip_rate: u64 = t.skip_mode[inputs.skip_mode_ctx][1] as u64;
        let ssd_skip: u64 = dist.ssd_sum(true);
        let skip_cost: u64 = rdcost(lambda, skip_rate, ssd_skip);
        if skip_cost <= cost {
            cost = skip_cost;
            total_rate = skip_rate;
            full_dist = ssd_skip;
            skip_mode = true;
        }
    }
    let full_cost_ssim: Option<u64> = if inputs.update_full_cost_ssim {
        let ssim: u64 = dist.ssim_sum(drops || skip_mode);
        Some(rdcost(lambda, total_rate, ssim))
    } else {
        None
    };
    FullCostResult { cost, total_rate, full_dist, full_cost_ssim, forced_coeff_skip: drops, skip_mode }
}

/// Allowing skip mode never raises the cost, and a tie goes to skip mode.
pub proof fn skip_mode_never_costs_more(
    with: FullCostResult,
    without: FullCostResult,
    inputs: FullCostInputs,
    dist: FullDist,
    bits: int,
    lambda: int,
    t: SkipFacBits,
)
    requires
        !inputs.skip_mode_allowed,
        is_full_cost(without, inputs, dist, bits, lambda, t),
        is_full_cost(with, (FullCostInputs { skip_mode_allowed: true, ..inputs }), dist, bits, lambda, t),
    ensures
        with.cost <= without.cost,
        with.skip_mode <==> rd(
            lambda,
            t.skip_mode[inputs.skip_mode_ctx as int][1] as int,
            dist.ssd(true),
        ) <= without.cost,
        !with.skip_mode ==> with.cost == without.cost,
{
    let other = FullCostInputs { skip_mode_allowed: true, ..inputs };
    assert(coded_rate(inputs, bits, t) == coded_rate(other, bits, t));
    assert(dropped_rate(inputs, t) == dropped_rate(other, t));
}

/// An intra block, or one on a lossless segment, never loses its residual.
pub proof fn residual_kept_for_intra_and_lossless(
    r: FullCostResult,
    inputs: FullCostInputs,
    dist: FullDist,
    bits: int,
    lambda: int,
    t: SkipFacBits,
)
    requires
        is_full_cost(r, inputs, dist, bits, lambda, t),
        !inputs.is_inter_mode || inputs.lossless_segment,
    ensures
        !r.forced_coeff_skip,
{
}

/// Being allowed to drop the residual of an inter block never raises what the
/// residual costs: of coding and dropping it, the cheaper is taken, a tie
/// keeps it, and a block that keeps it costs what it costs where dropping is
/// not allowed.
pub proof fn dropping_never_costs_more(
    with: FullCostResult,
    without: FullCostResult,
    inputs: FullCostInputs,
    dist: FullDist,
    bits: int,
    lambda: int,
    t: SkipFacBits,
)
    requires
        !inputs.skip_mode_allowed,
        !inputs.blk_skip_decision,
        inputs.block_has_coeff,
        inputs.is_inter_mode,
        !inputs.lossless_segment,
        is_full_cost(without, inputs, dist, bits, lambda, t),
        is_full_cost(with, (FullCostInputs { blk_skip_decision: true, ..inputs }), dist, bits, lambda, t),
    ensures
        ({
            let tx = !inputs.shut_fast_rate && inputs.tx_mode_select;
            let coded_bits = bits + t.skip[inputs.skip_coeff_ctx as int][0] + if tx {
                inputs.non_skip_tx_size_bits as int
            } else {
                0
            };
            let dropped_bits = t.skip[inputs.skip_coeff_ctx as int][1] + if tx {
                inputs.skip_tx_size_bits as int
            } else {
                0
            };
            let coded_dist = dist.y.ssd_nonskip + dist.cb.ssd_nonskip + dist.cr.ssd_nonskip;
            let dropped_dist = dist.y.ssd_skip + dist.cb.ssd_skip + dist.cr.ssd_skip;
            let coded = (coded_bits * lambda + 256) / 512 + 128 * coded_dist;
            let dropped = (dropped_bits * lambda + 256) / 512 + 128 * dropped_dist;
            let spent = ((with.total_rate - inputs.fast_rate) * lambda + 256) / 512 + 128 * with.full_dist;
            &&& !without.forced_coeff_skip
            &&& without.total_rate == inputs.fast_rate + coded_bits
            &&& without.full_dist == coded_dist
            &&& with.forced_coeff_skip <==> dropped < coded
            &&& spent <= coded
            &&& spent <= dropped
            &&& with.forced_coeff_skip ==> with.total_rate == inputs.fast_rate + dropped_bits && with.full_dist
                == dropped_dist
            &&& !with.forced_coeff_skip ==> with.total_rate == without.total_rate && with.full_dist
                == without.full_dist && with.cost == without.cost
        }),
{
}

/// The cost of a block is made of its own rate and distortion, and the
/// structural cost of the same rate. A block that is not in skip mode pays for
/// its mode and for its residual: for the coefficients and the transform sizes
/// that it codes, or for saying that there are none.
pub proof fn blocks_pay_for_what_they_code(
    r: FullCostResult,
    inputs: FullCostInputs,
    dist: FullDist,
    bits: int,
    lambda: int,
    t: SkipFacBits,
)
    requires
        is_full_cost(r, inputs, dist, bits, lambda, t),
    ensures
        ({
            let tx = !inputs.shut_fast_rate && inputs.tx_mode_select;
            let codes = inputs.block_has_coeff && !r.forced_coeff_skip;
            let skips = r.forced_coeff_skip || r.skip_mode;
            &&& r.cost == (r.total_rate * lambda + 256) / 512 + 128 * r.full_dist
            &&& r.skip_mode ==> r.total_rate == t.skip_mode[inputs.skip_mode_ctx as int][1]
            &&& !r.skip_mode && codes && tx ==> r.total_rate == inputs.fast_rate + bits
                + inputs.non_skip_tx_size_bits + t.skip[inputs.skip_coeff_ctx as int][0]
            &&& !r.skip_mode && codes && !tx ==> r.total_rate == inputs.fast_rate + bits
                + t.skip[inputs.skip_coeff_ctx as int][0]
            &&& !r.skip_mode && !codes && tx ==> r.total_rate == inputs.fast_rate + inputs.skip_tx_size_bits
                + t.skip[inputs.skip_coeff_ctx as int][1]
            &&& !r.skip_mode && !codes && !tx ==> r.total_rate == inputs.fast_rate
                + t.skip[inputs.skip_coeff_ctx as int][1]
            &&& skips ==> r.full_dist == dist.y.ssd_skip + dist.cb.ssd_skip + dist.cr.ssd_skip
            &&& !skips ==> r.full_dist == dist.y.ssd_nonskip + dist.cb.ssd_nonskip + dist.cr.ssd_nonskip
            &&& r.full_cost_ssim is Some <==> inputs.update_full_cost_ssim
            &&& r.full_cost_ssim matches Some(c) ==> c == (r.total_rate * lambda + 256) / 512 + 128 * (if skips {
                dist.y.ssim_skip + dist.cb.ssim_skip + dist.cr.ssim_skip
            } else {
                dist.y.ssim_nonskip + dist.cb.ssim_nonskip + dist.cr.ssim_nonskip
            })
        }),
{
}

/// Where dropping the residual is not allowed, it is not dropped; where it
/// is, in skip mode or not, it is dropped exactly where that costs less than
/// coding it.
pub proof fn residuals_are_dropped_by_leave(
    r: FullCostResult,
    inputs: FullCostInputs,
    dist: FullDist,
    bits: int,
    lambda: int,
    t: SkipFacBits,
)
    requires
        is_full_cost(r, inputs, dist, bits, lambda, t),
    ensures
        ({
            let tx = !inputs.shut_fast_rate && inputs.tx_mode_select;
            let coded_bits = bits + t.skip[inputs.skip_coeff_ctx as int][0] + if tx {
                inputs.non_skip_tx_size_bits as int
            } else {
                0
            };
            let dropped_bits = t.skip[inputs.skip_coeff_ctx as int][1] + if tx {
                inputs.skip_tx_size_bits as int
            } else {
                0
            };
            r.forced_coeff_skip <==> {
                &&& inputs.blk_skip_decision
                &&& inputs.block_has_coeff
                &&& inputs.is_inter_mode
                &&& !inputs.lossless_segment
                &&& (dropped_bits * lambda + 256) / 512 + 128 * (dist.y.ssd_skip + dist.cb.ssd_skip
                    + dist.cr.ssd_skip) < (coded_bits * lambda + 256) / 512 + 128 * (dist.y.ssd_nonskip
                    + dist.cb.ssd_nonskip + dist.cr.ssd_nonskip)
            }
        }),
{
}

/// A block in skip mode was allowed to be, and costs no more than it would
/// outside it; one outside it that was allowed to be in it costs less.
pub proof fn skip_mode_is_weighed(
    r: FullCostResult,
    inputs: FullCostInputs,
    dist: FullDist,
    bits: int,
    lambda: int,
    t: SkipFacBits,
)
    requires
        is_full_cost(r, inputs, dist, bits, lambda, t),
    ensures
        ({
            let skip = (t.skip_mode[inputs.skip_mode_ctx as int][1] * lambda + 256) / 512 + 128 * (dist.y.ssd_skip
                + dist.cb.ssd_skip + dist.cr.ssd_skip);
            &&& r.skip_mode ==> inputs.skip_mode_allowed && r.cost == skip
            &&& inputs.skip_mode_allowed && !r.skip_mode ==> r.cost < skip
        }),
{
}

/// Which planes a coefficient-rate request covers.
#[derive(Debug, Clone, Copy, PartialEq, Eq, Structural)]
pub enum ComponentType {
    Luma,
    ChromaCb,
    ChromaCr,
    Chroma,
    All,
}

impl ComponentType {
    pub open spec fn luma(self) -> bool {
        self is Luma || self is All
    }

    pub open spec fn cb(self) -> bool {
        self is ChromaCb || self is Chroma || self is All
    }

    pub open spec fn cr(self) -> bool {
        self is ChromaCr || self is Chroma || self is All
    }

    fn covers_luma(self) -> (r: bool)
        ensures
            r == self.luma(),
    {
        matches!(self, ComponentType::Luma | ComponentType::All)
    }

    fn covers_cb(self) -> (r: bool)
        ensures
            r == self.cb(),
    {
        matches!(self, ComponentType::ChromaCb | ComponentType::Chroma | ComponentType::All)
    }

    fn covers_cr(self) -> (r: bool)
        ensures
            r == self.cr(),
    {
        matches!(self, ComponentType::ChromaCr | ComponentType::Chroma | ComponentType::All)
    }
}

/// The two prices of one plane's transform block.
#[derive(Debug, Clone, Copy)]
pub struct TxbPlane {
    /// End of the block.
    pub eob: u16,
    /// Rate of its coefficients, were it coded.
    pub coeff_rate: u64,
    /// Rate of declaring it empty.
    pub skip_rate: u64,
}

/// Rate of a plane: its coefficients when it has any.
pub open spec fn plane_bits(p: TxbPlane) -> int {
    if p.eob != 0 {
        p.coeff_rate as int
    } else {
        p.skip_rate as int
    }
}

fn plane_rate(p: &TxbPlane) -> (r: u64)
    ensures
        r == plane_bits(*p),
{
    if p.eob != 0 {
        p.coeff_rate
    } else {
        p.skip_rate
    }
}

/// Coefficient rates of the three planes.
#[derive(Debug, Clone, Copy, PartialEq, Eq)]
pub struct TxbCoeffBits {
    pub y: u64,
    pub cb: u64,
    pub cr: u64,
}

impl Default for TxbCoeffBits {
    /// No rate.
    fn default() -> (r: Self)
        ensures
            r == (TxbCoeffBits { y: 0, cb: 0, cr: 0 }),
    {
        TxbCoeffBits { y: 0, cb: 0, cr: 0 }
    }
}

/// Rate of a plane that is covered and present, else zero.
pub open spec fn covered_bits(covered: bool, p: Option<&TxbPlane>) -> int {
    match p {
        Some(p) => if covered {
            plane_bits(*p)
        } else {
            0
        },
        None => 0,
    }
}

/// `2^n` as a 64-bit factor.
fn pow2_u64(n: u32) -> (r: u64)
    requires
        n < 64,
    ensures
        r == pow2(n as nat),
{
    proof {
        lemma2_to64();
        lemma2_to64_rest();
        lemma_pow2_strictly_increases(n as nat, 64);
        lemma_u64_shl_is_mul(1, n as u64);
    }
    1u64 << n
}

/// Coefficient rates of the covered planes. A sub-resolution search scales
/// the luma rate back up; chroma is never scaled.
pub fn txb_estimate_coeff_bits(
    component_type: ComponentType,
    luma: Option<&TxbPlane>,
    cb: Option<&TxbPlane>,
    cr: Option<&TxbPlane>,
    mds_subres_step: u32,
) -> (r: TxbCoeffBits)
    requires
        mds_subres_step < 64,
        covered_bits(component_type.luma(), luma) * pow2(mds_subres_step as nat) <= u64::MAX,
    ensures
        r.y == covered_bits(component_type.luma(), luma) * pow2(mds_subres_step as nat),
        r.cb == covered_bits(component_type.cb(), cb),
        r.cr == covered_bits(component_type.cr(), cr),
{
    let y: u64 = match luma {
        Some(p) => if component_type.covers_luma() {
            plane_rate(p)
        } else {
            0
        },
        None => 0,
    };
    let u: u64 = match cb {
        Some(p) => if component_type.covers_cb() {
            plane_rate(p)
        } else {
            0
        },
        None => 0,
    };
    let v: u64 = match cr {
        Some(p) => if component_type.covers_cr() {
            plane_rate(p)
        } else {
            0
        },
        None => 0,
    };
    proof {
        lemma_mul_nonnegative(y as int, pow2(mds_subres_step as nat) as int);
    }
    TxbCoeffBits { y: y * pow2_u64(mds_subres_step), cb: u, cr: v }
}

/// Coefficient rate of a luma block in the first partitioning pass. Only the
/// rate of a nonempty block is scaled up.
pub fn txb_estimate_coeff_bits_pd0(plane: &TxbPlane, mds_subres_step: u32) -> (r: u64)
    requires
        mds_subres_step < 64,
        plane.coeff_rate * pow2(mds_subres_step as nat) <= u64::MAX,
    ensures
        r == if plane.eob != 0 {
            plane.coeff_rate * pow2(mds_subres_step as nat)
        } else {
            plane.skip_rate as int
        },
{
    if plane.eob != 0 {
        proof {
            lemma_mul_nonnegative(plane.coeff_rate as int, pow2(mds_subres_step as nat) as int);
        }
        plane.coeff_rate * pow2_u64(mds_subres_step)
    } else {
        plane.skip_rate
    }
}

/// Whether a block size signals its transform size: all but the smallest.
pub fn block_signals_txsize(bsize: BlockSize) -> (r: bool)
    ensures
        r == (bsize != BlockSize::Block4x4),
{
    bsize.as_index() > 0
}

/// The contexts a block's rates are looked up with.
#[derive(Debug, Clone, Copy, PartialEq, Eq)]
pub struct BlockContexts {
    pub intra_luma_top_ctx: usize,
    pub intra_luma_left_ctx: usize,
    pub is_inter_ctx: usize,
    pub skip_mode_ctx: usize,
    pub skip_coeff_ctx: usize,
    /// Reference counts have to be collected.
    pub collect_ref_counts: bool,
}

impl Default for BlockContexts {
    /// The first of each context, and no counts.
    fn default() -> (r: Self)
        ensures
            r == (BlockContexts {
                intra_luma_top_ctx: 0,
                intra_luma_left_ctx: 0,
                is_inter_ctx: 0,
                skip_mode_ctx: 0,
                skip_coeff_ctx: 0,
                collect_ref_counts: false,
            }),
    {
        BlockContexts {
            intra_luma_top_ctx: 0,
            intra_luma_left_ctx: 0,
            is_inter_ctx: 0,
            skip_mode_ctx: 0,
            skip_coeff_ctx: 0,
            collect_ref_counts: false,
        }
    }
}

/// Derives the contexts of a block, computing only those that will be read:
/// the modes around the block in a key slice, these and the two flags where
/// fast rates are wanted, and the skip context where it is updated. The others
/// are not asked for.
pub fn coding_loop_context_generation(
    is_key_slice: bool,
    allow_intrabc: bool,
    shut_fast_rate: bool,
    approx_inter_rate: u8,
    update_skip_coeff_ctx: bool,
    kf_y_mode_ctx: impl FnOnce() -> (usize, usize),
    intra_inter_ctx: impl FnOnce() -> usize,
    skip_mode_ctx: impl FnOnce() -> usize,
    skip_ctx: impl FnOnce() -> usize,
) -> (r: BlockContexts)
    requires
        !shut_fast_rate && is_key_slice ==> call_requires(kf_y_mode_ctx, ()),
        !shut_fast_rate ==> call_requires(intra_inter_ctx, ()) && call_requires(skip_mode_ctx, ()),
        update_skip_coeff_ctx ==> call_requires(skip_ctx, ()),
    ensures
        !shut_fast_rate && is_key_slice ==> call_ensures(
            kf_y_mode_ctx,
            (),
            (r.intra_luma_top_ctx, r.intra_luma_left_ctx),
        ),
        shut_fast_rate || !is_key_slice ==> r.intra_luma_top_ctx == 0 && r.intra_luma_left_ctx == 0,
        !shut_fast_rate ==> call_ensures(intra_inter_ctx, (), r.is_inter_ctx) && call_ensures(
            skip_mode_ctx,
            (),
            r.skip_mode_ctx,
        ),
        shut_fast_rate ==> r.is_inter_ctx == 0 && r.skip_mode_ctx == 0,
        r.collect_ref_counts == ((!is_key_slice || allow_intrabc) && approx_inter_rate < 2),
        update_skip_coeff_ctx ==> call_ensures(skip_ctx, (), r.skip_coeff_ctx),
        !update_skip_coeff_ctx ==> r.skip_coeff_ctx == 0,
{
    let mut top: usize = 0;
    let mut left: usize = 0;
    let mut is_inter: usize = 0;
    let mut skip_mode: usize = 0;
    if !shut_fast_rate {
        if is_key_slice {
            let (t, l) = kf_y_mode_ctx();
            top = t;
            left = l;
        }
        is_inter = intra_inter_ctx();
        skip_mode = skip_mode_ctx();
    }
    let skip_coeff: usize = if update_skip_coeff_ctx {
        skip_ctx()
    } else {
        0
    };
    BlockContexts {
        intra_luma_top_ctx: top,
        intra_luma_left_ctx: left,
        is_inter_ctx: is_inter,
        skip_mode_ctx: skip_mode,
        skip_coeff_ctx: skip_coeff,
        collect_ref_counts: (!is_key_slice || allow_intrabc) && approx_inter_rate < 2,
    }
}

/// A plane pays for its coefficients, or for saying that it has none; a plane
/// that is not there, or that is not asked about, pays nothing.
pub proof fn planes_pay_for_their_coefficients(p: TxbPlane, asked: bool)
    ensures
        asked && p.eob > 0 ==> covered_bits(asked, Some(&p)) == p.coeff_rate,
        asked && p.eob == 0 ==> covered_bits(asked, Some(&p)) == p.skip_rate,
        !asked ==> covered_bits(asked, Some(&p)) == 0,
        covered_bits(asked, None) == 0,
{
}

/// A residual may be dropped only where there is one, in an inter block of a
/// lossy segment, and where that is weighed at all.
pub proof fn residuals_may_be_dropped_in_lossy_inter_blocks(i: FullCostInputs)
    ensures
        may_drop(i) ==> i.block_has_coeff && i.is_inter_mode && !i.lossless_segment && i.blk_skip_decision,
        i.block_has_coeff && i.is_inter_mode && !i.lossless_segment && i.blk_skip_decision ==> may_drop(i),
{
}

} // verus!
