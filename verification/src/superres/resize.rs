//! Frame resizing, and its reconciliation with superres where the two
//! together would make a frame too narrow.

use vstd::prelude::*;

use crate::arith::{clamp_i32, clamp_int, div_trunc, low_u16, max_int, unsigned_i32};
use crate::superres::{drawn_denom, lcg_next, lcg_rand16, SuperresMode, SCALE_NUMERATOR};

verus! {

/// How the resize denominator of a frame is chosen.
#[derive(Debug, Clone, Copy, PartialEq, Eq, Structural)]
pub enum ResizeMode {
    /// Never resized.
    Unscaled,
    /// A configured denominator.
    Fixed,
    /// A pseudo-random denominator.
    Random,
    /// As rate control asks for.
    Dynamic,
    /// As an event of the application asks for.
    RandomAccess,
}

/// The size a frame is coded at, and the superres denominator behind it.
#[derive(Debug, Clone, Copy, PartialEq, Eq, Structural)]
pub struct SuperresParams {
    pub encoding_width: u16,
    pub encoding_height: u16,
    pub superres_denom: u8,
}

/// A resize event of the application. Only the modes unscaled, fixed and
/// random are legal in one.
#[derive(Debug, Clone, Copy, PartialEq, Eq, Structural)]
pub struct ResizeEvent {
    pub scale_mode: ResizeMode,
    pub scale_denom: u8,
    pub scale_kf_denom: u8,
}

/// Configuration of the choice.
#[derive(Debug, Clone, Copy, PartialEq, Eq, Structural)]
pub struct ResizeConfig {
    pub mode: ResizeMode,
    /// Fixed denominator, of key frames and of others.
    pub denom: u8,
    pub kf_denom: u8,
    /// What rate control asks for.
    pub pending_denom: u8,
    pub event: ResizeEvent,
}

/// The mode that is in force: that of the event where events decide.
pub open spec fn mode_in_force(cfg: ResizeConfig) -> ResizeMode {
    if cfg.mode is RandomAccess {
        cfg.event.scale_mode
    } else {
        cfg.mode
    }
}

/// An event asks for a mode that is not legal in one.
pub open spec fn is_illegal(cfg: ResizeConfig) -> bool {
    cfg.mode is RandomAccess && (cfg.event.scale_mode is Dynamic || cfg.event.scale_mode is RandomAccess)
}

/// The resize denominator of a frame.
pub open spec fn resize_denom_of(cfg: ResizeConfig, is_key_frame: bool, seed: int) -> int {
    match mode_in_force(cfg) {
        ResizeMode::Unscaled => 8,
        ResizeMode::Fixed => {
            if cfg.mode is RandomAccess {
                if is_key_frame {
                    cfg.event.scale_kf_denom as int
                } else {
                    cfg.event.scale_denom as int
                }
            } else if is_key_frame {
                cfg.kf_denom as int
            } else {
                cfg.denom as int
            }
        },
        ResizeMode::Random => drawn_denom(lcg_next(seed)),
        _ => cfg.pending_denom as int,
    }
}

/// The resize denominator of a frame, or none where an event asks for a mode
/// that is not legal in one. Each pseudo-random choice advances `seed` once.
pub fn calculate_next_resize_scale(cfg: &ResizeConfig, is_key_frame: bool, seed: &mut u32) -> (r: Option<u8>)
    ensures
        r is None <==> is_illegal(*cfg),
        r is Some ==> r->0 == resize_denom_of(*cfg, is_key_frame, *old(seed) as int),
        *final(seed) == if mode_in_force(*cfg) is Random {
            lcg_next(*old(seed) as int)
        } else {
            *old(seed) as int
        },
{
    match cfg.mode {
        ResizeMode::Unscaled => Some(SCALE_NUMERATOR),
        ResizeMode::Fixed => {
            if is_key_frame {
                Some(cfg.kf_denom)
            } else {
                Some(cfg.denom)
            }
        },
        ResizeMode::Random => Some((lcg_rand16(seed) % 9 + 8) as u8),
        ResizeMode::Dynamic => Some(cfg.pending_denom),
        ResizeMode::RandomAccess => match cfg.event.scale_mode {
            ResizeMode::Unscaled => Some(SCALE_NUMERATOR),
            ResizeMode::Fixed => {
                if is_key_frame {
                    Some(cfg.event.scale_kf_denom)
                } else {
                    Some(cfg.event.scale_denom)
                }
            },
            ResizeMode::Random => Some((lcg_rand16(seed) % 9 + 8) as u8),
            _ => None,
        },
    }
}

/// A coded dimension, scaled up once more by `denom`, is at least half of the
/// original one.
pub open spec fn keeps_half(orig_dim: int, resized_dim: int, denom: int) -> bool {
    resized_dim * 8 >= div_trunc(orig_dim * denom, 2)
}

/// A coded dimension, scaled up once more by `denom`, is at least half of the
/// original one, rounded down.
pub fn dimension_is_ok(orig_dim: i32, resized_dim: i32, denom: i32) -> (r: bool)
    requires
        i32::MIN <= resized_dim * 8 <= i32::MAX,
        i32::MIN <= orig_dim * denom <= i32::MAX,
    ensures
        r == keeps_half(orig_dim as int, resized_dim as int, denom as int),
{
    resized_dim * 8 >= orig_dim * denom / 2
}

/// The width of a frame is acceptable; its height is not scaled twice.
pub open spec fn wide_enough(owidth: int, rsz: SuperresParams) -> bool {
    keeps_half(owidth, rsz.encoding_width as int, rsz.superres_denom as int)
}

/// The width of a frame is acceptable.
pub fn dimensions_are_ok(owidth: i32, rsz: &SuperresParams) -> (r: bool)
    requires
        i32::MIN <= owidth * rsz.superres_denom <= i32::MAX,
    ensures
        r == wide_enough(owidth as int, *rsz),
{
    dimension_is_ok(owidth, rsz.encoding_width as i32, rsz.superres_denom as i32)
}

/// `scaled` is a function of a dimension and a denominator, defined
/// everywhere.
pub open spec fn is_scaler<F: Fn(u16, u8) -> u16>(scaled: F) -> bool {
    &&& forall|dim: u16, denom: u8| #[trigger] call_requires(scaled, (dim, denom))
    &&& forall|dim: u16, denom: u8, a: u16, b: u16| #[trigger]
        call_ensures(scaled, (dim, denom), a) && #[trigger] call_ensures(scaled, (dim, denom), b) ==> a == b
}

/// What `scaled` returns: a dimension divided by a denominator.
pub open spec fn scaled_to<F: Fn(u16, u8) -> u16>(scaled: F, dim: u16, denom: u8) -> u16 {
    choose|a: u16| #[trigger] call_ensures(scaled, (dim, denom), a)
}

/// The size of a frame resized by a denominator. Sizes count in 16 bits.
pub open spec fn resized<F: Fn(u16, u8) -> u16>(
    scaled: F,
    owidth: int,
    oheight: int,
    resize_denom: u8,
    superres_denom: u8,
) -> SuperresParams {
    SuperresParams {
        encoding_width: scaled_to(scaled, (owidth % 0x1_0000) as u16, resize_denom),
        encoding_height: scaled_to(scaled, (oheight % 0x1_0000) as u16, resize_denom),
        superres_denom,
    }
}

/// The quotient rounded to nearest.
pub open spec fn rounded_quotient(x: int, y: int) -> int {
    div_trunc(x + y / 2, y)
}

/// The resize denominator that a coded size stands for.
pub open spec fn implied_denom(owidth: int, oheight: int, rsz: SuperresParams) -> int {
    clamp_int(
        max_int(
            rounded_quotient(owidth * 8, rsz.encoding_width as int),
            rounded_quotient(oheight * 8, rsz.encoding_height as int),
        ),
        0,
        255,
    )
}

/// The larger of two denominators taken back by one; the second where they
/// are equal.
pub open spec fn taken_back(resize_denom: u8, superres_denom: u8) -> (u8, u8) {
    if resize_denom > superres_denom {
        ((resize_denom - 1) as u8, superres_denom)
    } else {
        (resize_denom, (superres_denom - 1) as u8)
    }
}

/// Takes the denominators back one step at a time until the width is
/// acceptable or neither scales.
pub open spec fn walked_back<F: Fn(u16, u8) -> u16>(
    scaled: F,
    owidth: int,
    oheight: int,
    resize_denom: u8,
    superres_denom: u8,
) -> (SuperresParams, u8)
    decreases resize_denom + superres_denom,
    when superres_denom > 0
{
    let (r, s) = taken_back(resize_denom, superres_denom);
    let rsz = resized(scaled, owidth, oheight, r, s);
    if wide_enough(owidth, rsz) || !(r > 8 || s > 8) || s == 0 {
        (rsz, r)
    } else {
        walked_back(scaled, owidth, oheight, r, s)
    }
}

/// The reconciled size and resize denominator. Only a random denominator is
/// changed.
pub open spec fn reconciled<F: Fn(u16, u8) -> u16>(
    scaled: F,
    resize_mode: ResizeMode,
    superres_mode: SuperresMode,
    owidth: int,
    oheight: int,
    rsz: SuperresParams,
    resize_denom: u8,
) -> (SuperresParams, u8) {
    let implied = implied_denom(owidth, oheight, rsz) as u8;
    if wide_enough(owidth, rsz) {
        (rsz, resize_denom)
    } else if resize_mode !is Random && superres_mode is Random {
        let d = (128int / max_int(implied as int, 1)) as u8;
        let first = SuperresParams { superres_denom: d, ..rsz };
        if !wide_enough(owidth, first) && d > 8 {
            (SuperresParams { superres_denom: (d - 1) as u8, ..rsz }, resize_denom)
        } else {
            (first, resize_denom)
        }
    } else if resize_mode is Random && superres_mode !is Random {
        let d = (128int / max_int(rsz.superres_denom as int, 1)) as u8;
        let first = resized(scaled, owidth, oheight, d, rsz.superres_denom);
        if !wide_enough(owidth, first) && d > 8 {
            (resized(scaled, owidth, oheight, (d - 1) as u8, rsz.superres_denom), (d - 1) as u8)
        } else {
            (first, d)
        }
    } else if resize_mode is Random && superres_mode is Random {
        walked_back(scaled, owidth, oheight, implied, rsz.superres_denom)
    } else {
        (rsz, resize_denom)
    }
}

/// `scaled` has returned both sides of a frame resized by a denominator.
pub open spec fn sides_scaled<F: Fn(u16, u8) -> u16>(scaled: F, owidth: int, oheight: int, denom: u8) -> bool {
    let w = (owidth % 0x1_0000) as u16;
    let h = (oheight % 0x1_0000) as u16;
    &&& call_ensures(scaled, (w, denom), scaled_to(scaled, w, denom))
    &&& call_ensures(scaled, (h, denom), scaled_to(scaled, h, denom))
}

/// `scaled` has been asked at every step back.
pub open spec fn steps_scaled<F: Fn(u16, u8) -> u16>(
    scaled: F,
    owidth: int,
    oheight: int,
    resize_denom: u8,
    superres_denom: u8,
) -> bool
    decreases resize_denom + superres_denom,
    when superres_denom > 0
{
    let (r, s) = taken_back(resize_denom, superres_denom);
    let rsz = resized(scaled, owidth, oheight, r, s);
    &&& sides_scaled(scaled, owidth, oheight, r)
    &&& if wide_enough(owidth, rsz) || !(r > 8 || s > 8) || s == 0 {
        true
    } else {
        steps_scaled(scaled, owidth, oheight, r, s)
    }
}

/// `scaled` has been asked for every size that a reconciliation weighs.
pub open spec fn sizes_scaled<F: Fn(u16, u8) -> u16>(
    scaled: F,
    resize_mode: ResizeMode,
    superres_mode: SuperresMode,
    owidth: int,
    oheight: int,
    rsz: SuperresParams,
) -> bool {
    if wide_enough(owidth, rsz) || resize_mode !is Random {
        true
    } else if superres_mode is Random {
        steps_scaled(scaled, owidth, oheight, implied_denom(owidth, oheight, rsz) as u8, rsz.superres_denom)
    } else {
        let d = (128int / max_int(rsz.superres_denom as int, 1)) as u8;
        let first = resized(scaled, owidth, oheight, d, rsz.superres_denom);
        &&& sides_scaled(scaled, owidth, oheight, d)
        &&& !wide_enough(owidth, first) && d > 8 ==> sides_scaled(scaled, owidth, oheight, (d - 1) as u8)
    }
}

/// The reconciliation is computed without overflow or division by zero.
pub open spec fn sizes_fit(owidth: i32, oheight: i32, rsz: SuperresParams) -> bool {
    &&& i32::MIN <= owidth * 255 <= i32::MAX
    &&& !wide_enough(owidth as int, rsz) ==> {
        &&& rsz.encoding_width > 0
        &&& rsz.encoding_height > 0
        &&& i32::MIN <= oheight * 8 <= i32::MAX - 0x8000
    }
}

fn round_div(x: i32, y: i32) -> (r: i32)
    requires
        0 < y <= 0xffff,
        x <= i32::MAX - 0x8000,
    ensures
        r == rounded_quotient(x as int, y as int),
{
    (x + y / 2) / y
}

fn resize_to<F: Fn(u16, u8) -> u16>(
    scaled: &F,
    owidth: i32,
    oheight: i32,
    resize_denom: u8,
    superres_denom: u8,
) -> (r: SuperresParams)
    requires
        is_scaler(*scaled),
    ensures
        r == resized(*scaled, owidth as int, oheight as int, resize_denom, superres_denom),
        sides_scaled(*scaled, owidth as int, oheight as int, resize_denom),
{
    let w: u16 = low_u16(unsigned_i32(owidth));
    let h: u16 = low_u16(unsigned_i32(oheight));
    proof {
        assert(owidth as int % 0x1_0000_0000 % 0x1_0000 == owidth as int % 0x1_0000);
        assert(oheight as int % 0x1_0000_0000 % 0x1_0000 == oheight as int % 0x1_0000);
    }
    let encoding_width: u16 = scaled(w, resize_denom);
    let encoding_height: u16 = scaled(h, resize_denom);
    proof {
        assert(call_ensures(*scaled, (w, resize_denom), scaled_to(*scaled, w, resize_denom)));
        assert(call_ensures(*scaled, (h, resize_denom), scaled_to(*scaled, h, resize_denom)));
    }
    SuperresParams { encoding_width, encoding_height, superres_denom }
}

fn walk_back<F: Fn(u16, u8) -> u16>(
    scaled: &F,
    owidth: i32,
    oheight: i32,
    rsz: &mut SuperresParams,
    resize_denom: &mut u8,
)
    requires
        is_scaler(*scaled),
        0 < owidth,
        owidth * 255 <= i32::MAX,
        old(rsz).superres_denom > 0,
    ensures
        (*final(rsz), *final(resize_denom)) == walked_back(
            *scaled,
            owidth as int,
            oheight as int,
            *old(resize_denom),
            old(rsz).superres_denom,
        ),
        steps_scaled(*scaled, owidth as int, oheight as int, *old(resize_denom), old(rsz).superres_denom),
{
    let ghost asked = steps_scaled(*scaled, owidth as int, oheight as int, *resize_denom, rsz.superres_denom);
    let ghost goal = walked_back(*scaled, owidth as int, oheight as int, *resize_denom, rsz.superres_denom);
    let mut more: bool = true;
    while more
        invariant
            is_scaler(*scaled),
            0 < owidth,
            owidth * 255 <= i32::MAX,
            more ==> rsz.superres_denom > 0,
            more ==> goal == walked_back(
                *scaled,
                owidth as int,
                oheight as int,
                *resize_denom,
                rsz.superres_denom,
            ),
            !more ==> goal == (*rsz, *resize_denom),
            more ==> (steps_scaled(
                *scaled,
                owidth as int,
                oheight as int,
                *resize_denom,
                rsz.superres_denom,
            ) ==> asked),
            !more ==> asked,
        decreases *resize_denom + rsz.superres_denom + (if more {
            1int
        } else {
            0
        }),
    {
        if *resize_denom > rsz.superres_denom {
            *resize_denom = *resize_denom - 1;
        } else {
            rsz.superres_denom = rsz.superres_denom - 1;
        }
        let s: u8 = rsz.superres_denom;
        *rsz = resize_to(scaled, owidth, oheight, *resize_denom, s);
        proof {
            assert(owidth * s <= owidth * 255) by (nonlinear_arith)
                requires
                    0 < owidth,
                    s <= 255,
            ;
            assert(0 <= owidth * s) by (nonlinear_arith)
                requires
                    0 < owidth,
                    0 <= s,
            ;
            if s == 0 {
                assert(owidth * s == 0) by (nonlinear_arith)
                    requires
                        s == 0,
                ;
            }
        }
        if dimensions_are_ok(owidth, rsz) || !(*resize_denom > SCALE_NUMERATOR || rsz.superres_denom
            > SCALE_NUMERATOR) {
            more = false;
        }
    }
}

/// Reconciles a resized frame with its superres denominator: where the two
/// together make it too narrow, takes back whichever of them is random. A
/// fixed denominator is never changed. Returns whether the width is
/// acceptable, which it is not where neither is random.
pub fn validate_size_scales<F: Fn(u16, u8) -> u16>(
    resize_mode: ResizeMode,
    superres_mode: SuperresMode,
    owidth: i32,
    oheight: i32,
    rsz: &mut SuperresParams,
    resize_denom: &mut u8,
    scaled: &F,
) -> (ok: bool)
    requires
        resize_mode is Random && !wide_enough(owidth as int, *old(rsz)) ==> is_scaler(*scaled),
        sizes_fit(owidth, oheight, *old(rsz)),
    ensures
        (*final(rsz), *final(resize_denom)) == reconciled(
            *scaled,
            resize_mode,
            superres_mode,
            owidth as int,
            oheight as int,
            *old(rsz),
            *old(resize_denom),
        ),
        ok == wide_enough(owidth as int, *final(rsz)),
        sizes_scaled(*scaled, resize_mode, superres_mode, owidth as int, oheight as int, *old(rsz)),
{
    proof {
        lemma_product_fits(owidth, rsz.superres_denom);
    }
    if dimensions_are_ok(owidth, rsz) {
        return true;
    }
    proof {
        lemma_narrow_frame(owidth as int, *rsz);
    }
    let a: i32 = round_div(owidth * 8, rsz.encoding_width as i32);
    let b: i32 = round_div(oheight * 8, rsz.encoding_height as i32);
    let implied: u8 = clamp_i32(
        if a >= b {
            a
        } else {
            b
        },
        0,
        255,
    ) as u8;
    let resize_random: bool = resize_mode == ResizeMode::Random;
    let superres_random: bool = superres_mode == SuperresMode::Random;
    if !resize_random && superres_random {
        let d: u8 = 128 / (if implied < 1 {
            1
        } else {
            implied
        });
        rsz.superres_denom = d;
        proof {
            lemma_product_fits(owidth, d);
            if d > 0 {
                lemma_product_fits(owidth, (d - 1) as u8);
            }
        }
        if !dimensions_are_ok(owidth, rsz) && rsz.superres_denom > SCALE_NUMERATOR {
            rsz.superres_denom = rsz.superres_denom - 1;
        }
    } else if resize_random && !superres_random {
        let s: u8 = rsz.superres_denom;
        let d: u8 = 128 / (if s < 1 {
            1
        } else {
            s
        });
        *resize_denom = d;
        *rsz = resize_to(scaled, owidth, oheight, d, s);
        if !dimensions_are_ok(owidth, rsz) && d > SCALE_NUMERATOR {
            *resize_denom = d - 1;
            *rsz = resize_to(scaled, owidth, oheight, d - 1, s);
        }
    } else if resize_random && superres_random {
        *resize_denom = implied;
        walk_back(scaled, owidth, oheight, rsz, resize_denom);
        proof {
            lemma_product_fits(owidth, rsz.superres_denom);
        }
    } else {
        return false;
    }
    dimensions_are_ok(owidth, rsz)
}

proof fn lemma_product_fits(owidth: i32, denom: u8)
    requires
        i32::MIN <= owidth * 255 <= i32::MAX,
    ensures
        i32::MIN <= owidth * denom <= i32::MAX,
{
    assert(i32::MIN <= owidth * denom <= i32::MAX) by (nonlinear_arith)
        requires
            i32::MIN <= owidth * 255 <= i32::MAX,
            0 <= denom <= 255,
    ;
}

proof fn lemma_narrow_frame(owidth: int, rsz: SuperresParams)
    requires
        !wide_enough(owidth, rsz),
    ensures
        owidth > 0,
        rsz.superres_denom > 0,
{
    let d = rsz.superres_denom as int;
    assert(owidth * d > 0);
    assert(owidth > 0 && d > 0) by (nonlinear_arith)
        requires
            owidth * d > 0,
            d >= 0,
    ;
}

/// A scale that was not drawn at random is never changed: neither a
/// denominator nor a coded size. Where neither was, nothing is, and a frame
/// that is too narrow stays so.
pub proof fn fixed_scales_are_kept<F: Fn(u16, u8) -> u16>(
    scaled: F,
    resize_mode: ResizeMode,
    superres_mode: SuperresMode,
    owidth: int,
    oheight: int,
    rsz: SuperresParams,
    resize_denom: u8,
)
    ensures
        ({
            let (r, d) = reconciled(scaled, resize_mode, superres_mode, owidth, oheight, rsz, resize_denom);
            &&& superres_mode !is Random ==> r.superres_denom == rsz.superres_denom
            &&& resize_mode !is Random ==> d == resize_denom && r.encoding_width == rsz.encoding_width
                && r.encoding_height == rsz.encoding_height
            &&& resize_mode !is Random && superres_mode !is Random ==> r == rsz && wide_enough(owidth, r)
                == wide_enough(owidth, rsz)
        }),
{
}

/// A frame that is wide enough is left alone.
pub proof fn acceptable_sizes_are_kept<F: Fn(u16, u8) -> u16>(
    scaled: F,
    resize_mode: ResizeMode,
    superres_mode: SuperresMode,
    owidth: int,
    oheight: int,
    rsz: SuperresParams,
    resize_denom: u8,
)
    requires
        wide_enough(owidth, rsz),
    ensures
        reconciled(scaled, resize_mode, superres_mode, owidth, oheight, rsz, resize_denom) == (rsz, resize_denom),
{
}

} // verus!
