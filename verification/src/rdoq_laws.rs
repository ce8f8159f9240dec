//! How much rate counts in the optimization of a block, and which pictures
//! count as busy.

use vstd::arithmetic::power2::{lemma2_to64, lemma_pow2_unfold, pow2};
use vstd::prelude::*;

use crate::arith::shr_int;
use crate::rdoq::{low_dc_chroma, normalizes, rdmult_of, scaled_band, CodingQuantCfg, CoeffLvl};

verus! {

proof fn lemma_quarter(x: int)
    ensures
        shr_int(x, 2) == x / 4,
{
    lemma2_to64();
}

/// A quarter of the multiplier counts, weighted by plane: for luma 17/4 of it
/// in intra blocks and 16/4 in inter blocks; for chroma 20/4, or in stills 13/4
/// and 10/4.
pub proof fn rate_counts_by_plane(lambda: int, plane: int, inter: bool, still: bool)
    requires
        0 <= lambda,
        plane == 0 || plane == 1,
    ensures
        ({
            let r = rdmult_of(lambda, plane, 0, false, false, still, inter);
            &&& plane == 0 && !inter ==> 4 * r <= 17 * lambda + 2 < 4 * r + 4
            &&& plane == 0 && inter ==> 4 * r <= 16 * lambda + 2 < 4 * r + 4
            &&& plane == 1 && !still ==> 4 * r <= 20 * lambda + 2 < 4 * r + 4
            &&& plane == 1 && still && !inter ==> 4 * r <= 13 * lambda + 2 < 4 * r + 4
            &&& plane == 1 && still && inter ==> 4 * r <= 10 * lambda + 2 < 4 * r + 4
        }),
{
    let w = crate::rdoq::plane_weight(still, inter, plane);
    lemma_quarter(lambda * w * 100 / 100 + 2);
}

/// Each degree of sharpness from the third to the seventh halves what rate
/// counts; other degrees change nothing.
pub proof fn sharpness_halves_the_rate(lambda: int, plane: int, s: int, light: bool, still: bool, inter: bool)
    requires
        0 <= lambda,
    ensures
        2 <= s < 7 ==> rdmult_of(lambda, plane, s + 1, light, false, still, inter) == rdmult_of(
            lambda,
            plane,
            s,
            light,
            false,
            still,
            inter,
        ) / 2,
        s < 2 ==> rdmult_of(lambda, plane, s, light, false, still, inter) == rdmult_of(
            lambda,
            plane,
            2,
            light,
            false,
            still,
            inter,
        ),
        s >= 7 ==> rdmult_of(lambda, plane, s, light, false, still, inter) == rdmult_of(
            lambda,
            plane,
            7,
            light,
            false,
            still,
            inter,
        ),
{
    let x = (lambda * crate::rdoq::plane_weight(still, inter, plane) * crate::rdoq::rate_percent(light, false)) / 100 + 2;
    if 2 <= s < 7 {
        let n = s as nat;
        lemma_pow2_unfold(n + 1);
        vstd::arithmetic::power2::lemma_pow2_pos(n);
        vstd::arithmetic::div_mod::lemma_div_denominator(x, pow2(n) as int, 2);
        assert(pow2(n) * 2 == pow2(n + 1));
    }
}

/// Where rate is hardly to count it counts a tenth; where it is not to count
/// at all the multiplier is zero.
pub proof fn rate_counts_less_or_not_at_all(lambda: int, plane: int, inter: bool, still: bool)
    requires
        0 <= lambda,
        plane == 0 || plane == 1,
    ensures
        rdmult_of(lambda, plane, 0, false, true, still, inter) == 0,
        ({
            let whole = rdmult_of(lambda, plane, 0, false, false, still, inter);
            let less = rdmult_of(lambda, plane, 0, true, false, still, inter);
            &&& 10 * less <= whole + 5
            &&& whole <= 10 * less + 10
        }),
{
    let w = crate::rdoq::plane_weight(still, inter, plane);
    let p = lambda * w;
    lemma_quarter(p * 100 / 100 + 2);
    lemma_quarter(p * 10 / 100 + 2);
    lemma_quarter(p * 0 / 100 + 2);
}

/// Only chroma with something left to code is weakened, in the encode pass and
/// not for the identity: where its first level is at most one and no more than
/// a sixteenth of the block is coded, or where it is at most four and stands
/// alone.
pub proof fn little_chroma_is_weakened(mode: bool, pass: bool, idtx: bool, plane: int, dc: int, eob: int, n: int)
    requires
        0 <= eob,
        0 <= n,
    ensures
        low_dc_chroma(mode, pass, idtx, plane, dc, eob, n) <==> {
            &&& mode && pass && !idtx && plane != 0
            &&& 1 <= eob
            &&& (dc * dc <= 1 && 16 * eob <= n) || (dc * dc <= 16 && eob == 1)
        },
{
    assert(dc * dc <= 1 <==> -1 <= dc <= 1) by (nonlinear_arith);
    assert(dc * dc <= 16 <==> -4 <= dc <= 4) by (nonlinear_arith);
}

/// The order of the bands.
pub open spec fn busyness(l: CoeffLvl) -> int {
    match l {
        CoeffLvl::VLow => 0,
        CoeffLvl::Low => 1,
        CoeffLvl::Normal => 2,
        CoeffLvl::High => 3,
    }
}

/// Where the complexity or the resolution is higher, a picture is at least as
/// busy.
pub proof fn bands_rise(a: int, b: int, vlow: int, low: int, high: int, p: int, q: int)
    requires
        a <= b,
        p <= q,
        0 <= vlow <= low <= high,
    ensures
        busyness(scaled_band(a, vlow, low, high, p)) <= busyness(scaled_band(b, vlow, low, high, q)),
{
}

/// A picture is very quiet below the first bound, quiet below the second, busy
/// above the third. The bounds hold from 1080p on; below they are 12/10 of
/// that, below 720p 13/10 and below 240p 17/10, rounded down.
pub proof fn bands_lie_between_their_bounds(c: int, vlow: int, low: int, high: int, pixels: int)
    requires
        0 <= vlow <= low <= high,
    ensures
        ({
            let band = scaled_band(c, vlow, low, high, pixels);
            let k: int = if pixels >= 1_497_600 {
                10
            } else if pixels >= 660_480 {
                12
            } else if pixels >= 165_120 {
                13
            } else {
                17
            };
            &&& band is VLow <==> 10 * (c + 1) <= vlow * k
            &&& band is High <==> 10 * c > high * k
            &&& band is VLow || band is Low <==> 10 * (c + 1) <= low * k
        }),
{
    let k = crate::rdoq::threshold_tenths(crate::rdoq::pixel_class(pixels));
    assert(vlow * k <= low * k && low * k <= high * k) by (nonlinear_arith)
        requires
            0 <= vlow <= low <= high,
            k > 0,
    ;
}

/// Noise is normalized on luma alone, where the encoder is asked to, in the
/// encode pass, on blocks that hold a level and are transformed.
pub proof fn noise_is_normalized_on_luma(cfg: CodingQuantCfg, plane: int, idtx: bool, eob: int)
    ensures
        normalizes(cfg, plane, idtx, eob) ==> plane == 0 && eob != 0 && !idtx,
        cfg.noise_norm_strength == 0 || !cfg.hdr_fork || !cfg.is_encode_pass ==> !normalizes(cfg, plane, idtx, eob),
        cfg.noise_norm_strength > 0 && cfg.hdr_fork && cfg.is_encode_pass ==> (normalizes(cfg, 0, idtx, eob) <==> eob != 0
            && !idtx),
{
}

} // verus!
