//! What the filter goes by: which pictures of the window it reads, which it
//! leaves out, and how strength follows the picture's place and noise.

use vstd::arithmetic::div_mod::lemma_fundamental_div_mod;
use vstd::prelude::*;

use crate::arith::{max_int, total};
use crate::temporal_filtering::strength::{change_ratio, target_q, PERCENTS};
use crate::temporal_filtering::weights::shift_of_error;
use crate::tf_driver::setup::{
    brightness_changed, bright_terms, decay_level, differs_too_much, offset_slot, quantizer_decay, reference_slots,
    stepped, weight_shift, RaTfScs, TfCentre,
};

verus! {

proof fn lemma_stepped(from: int, to: int, step: int)
    requires
        0 <= from,
        to <= usize::MAX,
        0 < step,
    ensures
        forall|i: int|
            0 <= i < stepped(from, to, step).len() ==> #[trigger] stepped(from, to, step)[i] == from + i * step,
        forall|i: int| 0 <= i && #[trigger] (i * step) + from <= to ==> i < stepped(from, to, step).len(),
        forall|i: int| 0 <= i < stepped(from, to, step).len() ==> #[trigger] stepped(from, to, step)[i] <= to,
    decreases max_int(to - from + 1, 0),
{
    let s = stepped(from, to, step);
    if from <= to {
        let rest = stepped(from + step, to, step);
        lemma_stepped(from + step, to, step);
        assert(s == seq![from as usize] + rest);
        assert forall|i: int| 0 <= i < s.len() implies #[trigger] s[i] == from + i * step && s[i] <= to by {
            if i > 0 {
                assert(s[i] == rest[i - 1]);
                assert(i * step == (i - 1) * step + step) by (nonlinear_arith);
            } else {
                assert(i * step == 0) by (nonlinear_arith)
                    requires
                        i == 0,
                ;
            }
        }
        assert forall|i: int| 0 <= i && #[trigger] (i * step) + from <= to implies i < s.len() by {
            if i > 0 {
                assert(i * step == (i - 1) * step + step) by (nonlinear_arith);
                assert((i - 1) * step + (from + step) <= to);
            }
        }
    } else {
        assert forall|i: int| 0 <= i && #[trigger] (i * step) + from <= to implies i < s.len() by {
            assert(i * step >= 0) by (nonlinear_arith)
                requires
                    i >= 0,
                    step > 0,
            ;
        }
    }
}

/// The slots that a picture is filtered with are those of the window on both
/// sides of it, every `step`-th from the first before it and from the first
/// after it, in order, and never its own.
pub proof fn references_surround_the_picture(past: int, future: int, step: int)
    requires
        0 <= past,
        0 <= future,
        past + future < usize::MAX,
        0 < step,
    ensures
        ({
            let r = reference_slots(past, future, step);
            &&& forall|i: int| 0 <= i < r.len() ==> #[trigger] r[i] != past && r[i] <= past + future
            &&& forall|k: int| 0 <= k && #[trigger] (k * step) < past ==> r.contains((k * step) as usize)
            &&& forall|k: int|
                0 <= k && #[trigger] (k * step) < future ==> r.contains((past + 1 + k * step) as usize)
            &&& step == 1 ==> r.len() == past + future
        }),
{
    let (a, b) = (stepped(0, past - 1, step), stepped(past + 1, past + future, step));
    let r = reference_slots(past, future, step);
    lemma_stepped(0, past - 1, step);
    lemma_stepped(past + 1, past + future, step);
    assert(r == a + b);
    assert forall|i: int| 0 <= i < r.len() implies #[trigger] r[i] != past && r[i] <= past + future by {
        if i < a.len() {
            assert(r[i] == a[i]);
        } else {
            let j = i - a.len();
            assert(r[i] == b[j]);
            assert(j * step >= 0) by (nonlinear_arith)
                requires
                    j >= 0,
                    step > 0,
            ;
            assert(b[j] == past + 1 + j * step);
        }
    }
    assert forall|k: int| 0 <= k && #[trigger] (k * step) < past implies r.contains((k * step) as usize) by {
        assert(k * step + 0 <= past - 1);
        assert(a[k] == 0 + k * step);
        assert(r[k] == a[k]);
    }
    assert forall|k: int| 0 <= k && #[trigger] (k * step) < future implies r.contains((past + 1 + k * step) as usize) by {
        assert(k * step + (past + 1) <= past + future);
        assert(b[k] == past + 1 + k * step);
        assert(r[a.len() + k] == b[k]);
    }
    if step == 1 {
        if past > 0 {
            assert((past - 1) * step + 0 <= past - 1);
        }
        if a.len() > past {
            assert(a[past] == 0 + past * step);
            assert(a[past] <= past - 1);
        }
        if future > 0 {
            assert((future - 1) * step + (past + 1) <= past + future);
        }
        if b.len() > future {
            assert(b[future] == past + 1 + future * step);
            assert(b[future] <= past + future);
        }
    }
}

/// A reference is left out for its difference exactly where that is more than
/// one a sample and more than a fifth above the window's average, for a
/// picture without references, or two fifths, for one with.
pub proof fn far_references_are_left_out(ahd: int, avg: int, area: int)
    ensures
        differs_too_much(ahd, avg, area, true) <==> ahd > area && 5 * ahd > 6 * avg,
        differs_too_much(ahd, avg, area, false) <==> ahd > area && 5 * ahd > 7 * avg,
{
}

/// A reference is left out for its brightness where it has changed in at least
/// 14 of 16 regions, by more than two; one of the same average is not, where
/// there is more than one region.
pub proof fn flashes_are_left_out(member: Seq<u8>, centre: Seq<u8>, regions: int)
    requires
        0 < regions,
    ensures
        (forall|i: int| 0 <= i < regions ==> #[trigger] member[i] > centre[i] + 2) ==> brightness_changed(
            Some(member),
            Some(centre),
            regions,
            false,
        ),
        (forall|i: int| 0 <= i < regions ==> #[trigger] member[i] + 2 < centre[i]) ==> brightness_changed(
            Some(member),
            Some(centre),
            regions,
            false,
        ),
        regions >= 2 && (forall|i: int|
            0 <= i < regions ==> -2 <= #[trigger] member[i] - centre[i] <= 2) ==> !brightness_changed(
            Some(member),
            Some(centre),
            regions,
            false,
        ),
        regions >= 2 ==> !brightness_changed(Some(member), Some(centre), regions, true),
{
    let f = bright_terms(Some(member), Some(centre));
    if forall|i: int| 0 <= i < regions ==> #[trigger] member[i] > centre[i] + 2 {
        assert forall|i: int| 0 <= i < regions implies #[trigger] f(i) == 1 by {
            assert(member[i] > centre[i] + 2);
        }
        lemma_same(f, 1, regions);
    }
    if forall|i: int| 0 <= i < regions ==> #[trigger] member[i] + 2 < centre[i] {
        assert forall|i: int| 0 <= i < regions implies #[trigger] f(i) == 1 by {
            assert(member[i] + 2 < centre[i]);
        }
        lemma_same(f, 1, regions);
    }
    if forall|i: int| 0 <= i < regions ==> -2 <= #[trigger] member[i] - centre[i] <= 2 {
        assert forall|i: int| 0 <= i < regions implies #[trigger] f(i) == 0 by {
            assert(-2 <= member[i] - centre[i] <= 2);
        }
        lemma_same(f, 0, regions);
    }
}

proof fn lemma_same(f: spec_fn(int) -> int, v: int, n: int)
    requires
        0 <= n,
        v == 0 || v == 1,
        forall|i: int| 0 <= i < n ==> #[trigger] f(i) == v,
    ensures
        total(f, n) == v * n,
    decreases n,
{
    if n > 0 {
        lemma_same(f, v, n - 1);
    }
}

/// The weight shift is fourteen less the strength. A key frame's own strength
/// goes before; without one, sharpness takes one off. Where strength adapts it
/// starts at the most that a small error gives.
pub proof fn shifts_follow_the_strength(s: RaTfScs)
    requires
        s.tf_strength <= 14,
    ensures
        s.enable_tf <= 1 ==> {
            &&& weight_shift(s, false) + s.tf_strength == 14
            &&& s.kf_tf_strength is Some ==> weight_shift(s, true) + s.kf_tf_strength->0 == 14
            &&& s.kf_tf_strength is None && !s.vq_sharpness_tf ==> weight_shift(s, true) == weight_shift(s, false)
            &&& s.kf_tf_strength is None && s.vq_sharpness_tf && s.tf_strength > 0 ==> weight_shift(s, true)
                == weight_shift(s, false) + 1
            &&& s.kf_tf_strength is None && s.vq_sharpness_tf && s.tf_strength == 0 ==> weight_shift(s, true) == 14
        },
        s.enable_tf > 1 ==> weight_shift(s, false) == 14 && weight_shift(s, true) == 14,
{
}

/// Small errors shift by fourteen, those from 200 * 2^12 on by one less, those
/// from 2000 * 2^12 on by two less.
pub proof fn small_errors_shift_further(e: int)
    requires
        0 <= e,
    ensures
        shift_of_error(e) == 14 <==> e < 819_200,
        shift_of_error(e) == 13 <==> 819_200 <= e < 8_192_000,
        shift_of_error(e) == 12 <==> 8_192_000 <= e,
{
}

/// Where a flat, noisy picture is to stay sharp its planes decay by one; other
/// chroma decays by six and other luma by three, or four where filtering has
/// changed the last intra frame by more than one and a half times its noise.
/// Every one counts noise with 0.7 added, in 64ths.
pub proof fn decay_goes_by_noise_and_change(s: RaTfScs, c: TfCentre, plane: int)
    requires
        0 <= plane < 3,
        0 <= c.noise_levels_log1p_fp16[plane],
    ensures
        ({
            let flat = s.vq_sharpness_tf && s.calculate_variance && c.is_noise_level && c.pic_avg_variance < 1000;
            let raised = !c.is_islice && change_ratio(c.filt_to_unfilt_diff as int, c.noise_levels_log1p_fp16[0] as int)
                > 150;
            let factor: int = if flat {
                1
            } else if plane > 0 {
                6
            } else if raised {
                4
            } else {
                3
            };
            let d = decay_level(s, c, plane);
            64 * d <= factor * (45875 + c.noise_levels_log1p_fp16[plane]) < 64 * d + 64
        }),
{
}

/// The change is a percentage of the noise, and none where there is no noise.
pub proof fn change_is_a_percentage_of_the_noise(diff: int, noise: int)
    requires
        0 <= diff,
        0 < noise,
    ensures
        noise * change_ratio(diff, noise) <= 100 * diff < noise * change_ratio(diff, noise) + noise,
        change_ratio(diff, 0) == 0,
{
    lemma_fundamental_div_mod(diff * 100, noise);
}

/// The lower a picture is in the hierarchy, the further below the sequence's
/// quantizer its filter aims, key frames furthest; pictures that nothing refers
/// to aim at it as it is.
pub proof fn important_pictures_aim_lower(q: int, c: TfCentre, levels: int, a: int, b: int)
    requires
        0 <= q,
        0 <= a <= b < 6,
    ensures
        0 <= target_q(q, a, levels) <= target_q(q, b, levels) <= q,
        target_q(q, -1, levels) == q,
        !c.is_ref ==> offset_slot(c) == -1,
        c.is_ref && c.is_key_frame ==> offset_slot(c) == 0,
        c.is_ref && !c.is_key_frame ==> 1 <= offset_slot(c) <= 5,
        c.is_ref && !c.is_key_frame && c.temporal_layer_index <= 4 ==> offset_slot(c) == c.temporal_layer_index + 1,
        ({
            let part: int = if levels <= 4 {
                76
            } else {
                75
            };
            100 * (q - target_q(q, 0, levels)) <= part * q < 100 * (q - target_q(q, 0, levels)) + 100
        }),
{
    let row: int = if levels <= 4 {
        1
    } else {
        0
    };
    assert(PERCENTS[row][b] <= PERCENTS[row][a]) by {
        assert(a == 0 || a == 1 || a == 2 || a == 3 || a == 4 || a == 5);
        assert(b == 0 || b == 1 || b == 2 || b == 3 || b == 4 || b == 5);
    }
    let (x, y) = (PERCENTS[row][a] as int, PERCENTS[row][b] as int);
    assert(0 <= y <= x <= 100);
    assert(0 <= q * y <= q * x && q * x <= q * 100) by (nonlinear_arith)
        requires
            0 <= q,
            0 <= y <= x <= 100,
    ;
    assert(PERCENTS[row][0] == if levels <= 4 {
        76int
    } else {
        75
    });
    assert(0 <= q * PERCENTS[row][0] <= q * 100) by (nonlinear_arith)
        requires
            0 <= q,
            0 <= PERCENTS[row][0] <= 100,
    ;
}

/// The decay of a quantizer is a 32nd of its square, and goes on from there in
/// a straight line below 128, but never below one.
pub proof fn decay_of_quantizers_rises(p: int, q: int)
    requires
        0 <= p <= q <= 46340,
    ensures
        1 <= quantizer_decay(p) <= quantizer_decay(q),
        q >= 128 ==> 32 * quantizer_decay(q) <= q * q < 32 * quantizer_decay(q) + 32,
        0 < p < 128 ==> quantizer_decay(p) == 4 * p,
{
    assert(p * p <= q * q) by (nonlinear_arith)
        requires
            0 <= p <= q,
    ;
    if q >= 128 {
        assert(q * q >= 16384) by (nonlinear_arith)
            requires
                q >= 128,
        ;
    }
    if p >= 128 {
        assert(p * p >= 16384) by (nonlinear_arith)
            requires
                p >= 128,
        ;
    }
}

} // verus!
