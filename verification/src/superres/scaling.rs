//! When frames are scaled and how far: what decides, and what two scales may
//! come to together.

use vstd::prelude::*;

use crate::arith::total;
use crate::superres::energy::{band_energy, band_terms, blocks_along, energy_of, is_block, top_band};
use crate::superres::resize::{
    implied_denom, is_illegal, keeps_half, reconciled, resize_denom_of, resized, rounded_quotient, walked_back,
    wide_enough, ResizeConfig, ResizeMode, SuperresParams,
};
use crate::superres::{
    drawn_denom, draws, is_decision, lcg_next, lcg_value, measures, SuperresConfig, SuperresDecision, SuperresMode,
    SuperresPicInput,
};
use crate::tpl::model::QUANTIZER_TO_QINDEX;

verus! {

proof fn lemma_indices_rise(a: int, b: int)
    requires
        0 <= a <= b < 64,
    ensures
        QUANTIZER_TO_QINDEX[a] <= QUANTIZER_TO_QINDEX[b],
    decreases b - a,
{
    if a < b {
        lemma_indices_rise(a, b - 1);
        assert(forall|k: int| 1 <= k < 64 ==> QUANTIZER_TO_QINDEX[k - 1] <= #[trigger] QUANTIZER_TO_QINDEX[k]);
    }
}

/// Where the quantizer decides, a frame that is not scaled at one quantizer is
/// not scaled at a finer one.
pub proof fn finer_quantizers_scale_less(
    d: SuperresDecision,
    e: SuperresDecision,
    cfg: SuperresConfig,
    pic: SuperresPicInput,
    finer: u8,
    suggested: u8,
    seed: int,
)
    requires
        cfg.mode is Qthresh || cfg.mode is Auto,
        finer <= pic.picture_qp,
        is_decision(d, cfg, pic, suggested, seed),
        is_decision(e, cfg, (SuperresPicInput { picture_qp: finer, ..pic }), suggested, seed),
        d.denom == 8,
    ensures
        e.denom == 8,
{
    let a: int = if finer < 63 {
        finer as int
    } else {
        63
    };
    let b: int = if pic.picture_qp < 63 {
        pic.picture_qp as int
    } else {
        63
    };
    lemma_indices_rise(a, b);
}

/// By threshold, a key frame or a base-layer reference is scaled as its detail
/// suggests where its quantizer index is above that of the threshold for its
/// kind; screen content, other frames and finer quantizers are not scaled.
pub proof fn thresholds_decide(
    d: SuperresDecision,
    cfg: SuperresConfig,
    pic: SuperresPicInput,
    suggested: u8,
    seed: int,
)
    requires
        cfg.mode is Qthresh,
        pic.picture_qp < 64,
        cfg.qthres < 64,
        cfg.kf_qthres < 64,
        is_decision(d, cfg, pic, suggested, seed),
    ensures
        ({
            let bound = if pic.is_intra_only {
                cfg.kf_qthres
            } else {
                cfg.qthres
            };
            let coarser = QUANTIZER_TO_QINDEX[pic.picture_qp as int] > QUANTIZER_TO_QINDEX[bound as int];
            d.denom == if coarser && !pic.allow_intrabc && !pic.allow_screen_content_tools && (pic.update_type is Kf
                || pic.update_type is Arf) {
                suggested
            } else {
                8
            }
        }),
        d.total_recode_loop == 0,
{
}

/// On its own, a frame is scaled as its detail suggests past the middle
/// quantizer index. Beside full resolution it is tried wherever it is lossy,
/// scaled by a ninth at least. A full search tries every denominator.
pub proof fn searches_decide(
    d: SuperresDecision,
    cfg: SuperresConfig,
    pic: SuperresPicInput,
    suggested: u8,
    seed: int,
)
    requires
        cfg.mode is Auto,
        0 < pic.picture_qp < 64,
        !pic.allow_intrabc,
        8 <= suggested,
        is_decision(d, cfg, pic, suggested, seed),
    ensures
        ({
            let kind = pic.update_type is Kf || pic.update_type is Arf;
            &&& !kind ==> d.denom == 8 && d.total_recode_loop == 0
            &&& kind && cfg.auto_search_type is Solo ==> d.denom == (if pic.picture_qp > 32 {
                suggested
            } else {
                8
            }) && d.total_recode_loop == 0
            &&& kind && cfg.auto_search_type is Dual ==> d.denom >= 9 && d.denom >= suggested && (d.denom == 9
                || d.denom == suggested) && d.total_recode_loop == 2 && d.denom_array@[1] == 8
            &&& kind && cfg.auto_search_type is All ==> d.total_recode_loop == 9 && (forall|n: u8|
                8 <= n <= 16 ==> #[trigger] d.denom_array@.contains(n))
        }),
{
    let q = pic.picture_qp as int;
    lemma_indices_rise(1, q);
    if q > 32 {
        lemma_indices_rise(33, q);
    } else {
        lemma_indices_rise(q, 32);
    }
    assert(QUANTIZER_TO_QINDEX[32] == 128 && QUANTIZER_TO_QINDEX[33] == 132 && QUANTIZER_TO_QINDEX[1] == 4);
    if (pic.update_type is Kf || pic.update_type is Arf) && cfg.auto_search_type is All {
        assert forall|n: u8| 8 <= n <= 16 implies #[trigger] d.denom_array@.contains(n) by {
            if n == 8 {
                assert(d.denom_array@[8] == n);
            } else {
                assert(d.denom_array@[n - 9] == n);
            }
        }
    }
}

/// A fixed denominator is taken as configured, key frames by theirs.
pub proof fn fixed_denominators_are_taken(
    d: SuperresDecision,
    cfg: SuperresConfig,
    pic: SuperresPicInput,
    suggested: u8,
    seed: int,
)
    requires
        cfg.mode is Fixed,
        !pic.allow_intrabc,
        is_decision(d, cfg, pic, suggested, seed),
    ensures
        pic.update_type is Kf ==> d.denom == cfg.kf_denom,
        pic.update_type !is Kf ==> d.denom == cfg.denom,
{
}

/// The generator's states follow one another linearly, in 32 bits; a draw is
/// the eleven bits above the lowest sixteen, and a denominator is its
/// remainder by nine above full resolution.
pub proof fn draws_follow_the_generator(s: int, t: int)
    requires
        0 <= s,
        0 <= t,
    ensures
        (lcg_next(s) - lcg_next(t) - 1_103_515_245 * (s - t)) % 0x1_0000_0000 == 0,
        lcg_next(0) == 12345,
        0 <= lcg_next(s) < 0x1_0000_0000,
        65536 * lcg_value(s) <= s % 0x800_0000 < 65536 * lcg_value(s) + 65536,
        8 <= drawn_denom(s) <= 16,
        (lcg_value(s) - drawn_denom(s) + 8) % 9 == 0,
{
}

/// The denominator that detail suggests counts the bands above the highest one
/// that carries enough: none past the last band, eight where none of the upper
/// half does.
pub proof fn detail_sets_the_denominator(above: Seq<bool>, k: int)
    requires
        8 <= k <= 16,
    ensures
        8 <= top_band(above, k) <= k,
        forall|i: int| top_band(above, k) <= i < k ==> !#[trigger] above[i],
        top_band(above, k) > 8 ==> above[top_band(above, k) - 1],
    decreases k,
{
    if k > 8 && !above[k - 1] {
        detail_sets_the_denominator(above, k - 1);
    }
}

/// The energy of a band is a quarter of the squares of its four coefficients,
/// to the nearest: the signs of the coefficients and the order of the rows do
/// not matter.
pub proof fn energy_is_a_quarter_of_the_squares(a: Seq<i32>, k: int)
    requires
        0 <= k < 16,
    ensures
        ({
            let squares = a[k] * a[k] + a[16 + k] * a[16 + k] + a[32 + k] * a[32 + k] + a[48 + k] * a[48 + k];
            squares - 2 < 4 * band_energy(a, k) <= squares + 2
        }),
{
}

/// As many blocks are counted as end before the last sample.
pub proof fn blocks_end_before_the_last_sample(n: int, side: int)
    requires
        0 < side,
        0 < n,
    ensures
        side * blocks_along(n, side) < n <= side * (blocks_along(n, side) + 1),
{
    vstd::arithmetic::div_mod::lemma_fundamental_div_mod(n - 1, side);
    let b = (n - 1) / side;
    assert(side * (b + 1) == side * b + side) by (nonlinear_arith);
}

/// Where events decide, a frame is resized as the event asks for; elsewhere as
/// configured, and rate control's wish counts only where it decides.
pub proof fn resizing_follows_the_mode(cfg: ResizeConfig, key: bool, seed: int)
    ensures
        cfg.mode is Unscaled ==> resize_denom_of(cfg, key, seed) == 8,
        cfg.mode is Fixed && key ==> resize_denom_of(cfg, key, seed) == cfg.kf_denom,
        cfg.mode is Fixed && !key ==> resize_denom_of(cfg, key, seed) == cfg.denom,
        cfg.mode is Dynamic ==> resize_denom_of(cfg, key, seed) == cfg.pending_denom,
        cfg.mode is Random && 0 <= seed ==> 8 <= resize_denom_of(cfg, key, seed) <= 16,
        cfg.mode is RandomAccess && !(cfg.event.scale_mode is Dynamic || cfg.event.scale_mode is RandomAccess)
            ==> resize_denom_of(cfg, key, seed) == resize_denom_of(
            (ResizeConfig {
                mode: cfg.event.scale_mode,
                denom: cfg.event.scale_denom,
                kf_denom: cfg.event.scale_kf_denom,
                ..cfg
            }),
            key,
            seed,
        ),
{
}

/// A frame is wide enough where its coded width, scaled once more, is at least
/// half of its own, but for what rounding the half down allows.
pub proof fn half_the_width_is_kept(owidth: int, r: SuperresParams)
    requires
        0 <= owidth,
    ensures
        wide_enough(owidth, r) <==> 16 * r.encoding_width >= owidth * r.superres_denom - (owidth * r.superres_denom) % 2,
        keeps_half(owidth, r.encoding_width as int, r.superres_denom as int) == wide_enough(owidth, r),
{
    assert(owidth * r.superres_denom >= 0) by (nonlinear_arith)
        requires
            owidth >= 0,
            r.superres_denom >= 0,
    ;
}

/// The denominator that a coded size stands for is the nearer one of its two
/// sides', and the larger of these.
pub proof fn sizes_stand_for_a_denominator(owidth: int, oheight: int, r: SuperresParams)
    requires
        0 <= owidth,
        0 <= oheight,
        0 < r.encoding_width,
        0 < r.encoding_height,
        owidth <= 31 * r.encoding_width,
        oheight <= 31 * r.encoding_height,
    ensures
        ({
            let d = implied_denom(owidth, oheight, r);
            let (w, h) = (r.encoding_width as int, r.encoding_height as int);
            &&& 2 * d * w >= 16 * owidth - w
            &&& 2 * d * h >= 16 * oheight - h
            &&& 2 * d * w <= 16 * owidth + w || 2 * d * h <= 16 * oheight + h
        }),
{
    let (w, h) = (r.encoding_width as int, r.encoding_height as int);
    lemma_nearest(owidth * 8, w);
    lemma_nearest(oheight * 8, h);
    let (a, b) = (rounded_quotient(owidth * 8, w), rounded_quotient(oheight * 8, h));
    lemma_below(owidth * 8, w, a);
    lemma_below(oheight * 8, h, b);
    let d = implied_denom(owidth, oheight, r);
    assert(d == if a > b {
        a
    } else {
        b
    });
    assert(2 * d * w >= 2 * a * w) by (nonlinear_arith)
        requires
            d >= a,
            w > 0,
    ;
    assert(2 * d * h >= 2 * b * h) by (nonlinear_arith)
        requires
            d >= b,
            h > 0,
    ;
}

proof fn lemma_nearest(x: int, y: int)
    requires
        0 <= x,
        0 < y,
    ensures
        rounded_quotient(x, y) >= 0,
        2 * x - y <= 2 * rounded_quotient(x, y) * y <= 2 * x + y,
{
    let q = rounded_quotient(x, y);
    vstd::arithmetic::div_mod::lemma_fundamental_div_mod(x + y / 2, y);
    assert(q == (x + y / 2) / y);
    let r = (x + y / 2) % y;
    assert(y * q == q * y && 2 * q * y == 2 * (q * y)) by (nonlinear_arith);
    assert(0 <= r < y);
    assert(q >= 0) by (nonlinear_arith)
        requires
            x + y / 2 == y * q + r,
            r < y,
            0 <= x + y / 2,
            0 < y,
    ;
}

proof fn lemma_below(x: int, y: int, q: int)
    requires
        0 < y,
        x <= 248 * y,
        2 * q * y <= 2 * x + y,
    ensures
        q <= 255,
{
    assert(q <= 255) by (nonlinear_arith)
        requires
            0 < y,
            2 * q * y <= 497 * y,
    ;
}

/// Two random scales are taken back until the frame is wide enough or nothing
/// scales: neither grows, each step takes one back by one, and the size that
/// comes out is that of the scale it was taken back to.
pub proof fn scales_are_taken_back_far_enough<F: Fn(u16, u8) -> u16>(scaled: F, owidth: int, oheight: int, r: u8, s: u8)
    requires
        r >= 8,
        s >= 8,
        r > 8 || s > 8,
    ensures
        ({
            let (size, d) = walked_back(scaled, owidth, oheight, r, s);
            &&& 8 <= d <= r
            &&& 8 <= size.superres_denom <= s
            &&& d + size.superres_denom < r + s
            &&& size == resized(scaled, owidth, oheight, d, size.superres_denom)
            &&& wide_enough(owidth, size) || d == 8 && size.superres_denom == 8
            &&& r >= s ==> size.superres_denom == s || d <= s
            &&& s >= r ==> d == r || size.superres_denom <= r
        }),
    decreases r + s,
{
    let (a, b) = crate::superres::resize::taken_back(r, s);
    let size = resized(scaled, owidth, oheight, a, b);
    if wide_enough(owidth, size) || !(a > 8 || b > 8) {
    } else {
        scales_are_taken_back_far_enough(scaled, owidth, oheight, a, b);
    }
}

/// A single random denominator that makes a frame too narrow is set so that
/// both scales together come to half at most.
pub proof fn one_random_scale_makes_room<F: Fn(u16, u8) -> u16>(
    scaled: F,
    resize: ResizeMode,
    superres: SuperresMode,
    owidth: int,
    oheight: int,
    rsz: SuperresParams,
    denom: u8,
)
    requires
        !wide_enough(owidth, rsz),
        0 < rsz.superres_denom <= 128,
        implied_denom(owidth, oheight, rsz) > 0,
        implied_denom(owidth, oheight, rsz) <= 128,
    ensures
        ({
            let (r, d) = reconciled(scaled, resize, superres, owidth, oheight, rsz, denom);
            let implied = implied_denom(owidth, oheight, rsz);
            &&& resize !is Random && superres is Random ==> r.superres_denom * implied <= 128 && (r.superres_denom + 2)
                * implied > 128
            &&& resize is Random && superres !is Random ==> d * rsz.superres_denom <= 128 && (d + 2) * rsz.superres_denom
                > 128 && r == resized(scaled, owidth, oheight, d, rsz.superres_denom)
        }),
{
    lemma_room(implied_denom(owidth, oheight, rsz));
    lemma_room(rsz.superres_denom as int);
}

proof fn lemma_room(x: int)
    requires
        0 < x <= 128,
    ensures
        1 <= 128int / x <= 128,
        (128int / x) * x <= 128 < (128int / x + 1) * x,
        (128int / x - 1) * x <= 128 < (128int / x + 2) * x,
{
    vstd::arithmetic::div_mod::lemma_fundamental_div_mod(128, x);
    let q = 128int / x;
    let r = 128int % x;
    assert(q * x <= 128 < (q + 1) * x) by (nonlinear_arith)
        requires
            128 == x * q + r,
            0 <= r < x,
    ;
    assert((q - 1) * x <= 128 < (q + 2) * x && 1 <= q <= 128) by (nonlinear_arith)
        requires
            q * x <= 128 < (q + 1) * x,
            0 < x <= 128,
    ;
}

/// A frame's detail is measured where its denominator goes by it: in a key
/// frame or a base-layer reference whose quantizer is past the threshold.
/// Where it is not, it does not matter what it would have been.
pub proof fn detail_is_measured_where_it_counts(
    d: SuperresDecision,
    cfg: SuperresConfig,
    pic: SuperresPicInput,
    a: u8,
    b: u8,
    seed: int,
)
    requires
        is_decision(d, cfg, pic, a, seed),
    ensures
        !measures(cfg, pic) ==> is_decision(d, cfg, pic, b, seed),
        measures(cfg, pic) && 9 <= a ==> d.denom == a,
        measures(cfg, pic) ==> pic.update_type is Kf || pic.update_type is Arf,
{
}

/// The generator is advanced where its draw counts: elsewhere its state does
/// not matter.
pub proof fn draws_are_made_where_they_count(
    d: SuperresDecision,
    cfg: SuperresConfig,
    pic: SuperresPicInput,
    suggested: u8,
    s: int,
    t: int,
)
    requires
        is_decision(d, cfg, pic, suggested, s),
    ensures
        !draws(cfg, pic) ==> is_decision(d, cfg, pic, suggested, t),
        draws(cfg, pic) <==> cfg.mode is Random && !pic.allow_intrabc,
        cfg.mode is Random && !pic.allow_intrabc ==> d.denom == drawn_denom(lcg_next(s)),
{
}

/// An event that leaves the choice to rate control or to another event is not
/// legal, and only events can be illegal.
pub proof fn events_decide_for_themselves(cfg: ResizeConfig)
    ensures
        is_illegal(cfg) <==> cfg.mode is RandomAccess && !(cfg.event.scale_mode is Unscaled || cfg.event.scale_mode is Fixed
            || cfg.event.scale_mode is Random),
{
}

/// The energy of a band of a picture is that of its blocks together: one more
/// block adds its own.
pub proof fn energies_add_up(a: Seq<[i32; 64]>, b: [i32; 64], k: int)
    ensures
        energy_of(a.push(b), k) == energy_of(a, k) + band_energy(b@, k),
        energy_of(Seq::empty(), k) == 0,
{
    lemma_same_terms(a, b, k, a.len() as int);
}

proof fn lemma_same_terms(a: Seq<[i32; 64]>, b: [i32; 64], k: int, n: int)
    requires
        0 <= n <= a.len(),
    ensures
        total(band_terms(a.push(b), k), n) == total(band_terms(a, k), n),
    decreases n,
{
    if n > 0 {
        lemma_same_terms(a, b, k, n - 1);
    }
}

/// Blocks hold sixteen by four samples, row by row, and lie side by side.
pub proof fn blocks_hold_sixteen_by_four(x: Seq<i32>, luma: Seq<u8>, stride: int, r: int, c: int, y: int, i: int)
    requires
        is_block(x, luma, stride, r, c),
        0 <= y < 4,
        0 <= i < 16,
    ensures
        x[16 * y + i] == luma[(4 * r + y) * stride + (16 * c + i)],
{
    let k = 16 * y + i;
    assert(k / 16 == y && k % 16 == i);
    assert(x[k] == luma[(4 * r + k / 16) * stride + 16 * c + k % 16]);
}

} // verus!
