//! What the filter of a picture rests on: segments, reference slots, the
//! references that are left out, and the strength.

use vstd::arithmetic::div_mod::{
    lemma_div_basics, lemma_div_is_ordered, lemma_div_multiples_vanish, lemma_div_pos_is_pos,
};
use vstd::arithmetic::mul::{lemma_mul_inequality, lemma_mul_is_commutative, lemma_mul_nonnegative};
use vstd::prelude::*;

use crate::arith::{abs_int, lemma_raster_split, max_int, min_int, total, wrap_i32};
use crate::superres::frame_update_type;
use crate::temporal_filtering::strength::{
    change_ratio, derive_decay_control, derive_tf_shift, target_fits, target_q, tf_q_decay_fp8, tf_q_val_target_fp8,
    tf_qp_offset_idx, TfShiftDecision, VQ_PIC_AVG_VARIANCE_TH,
};
use crate::temporal_filtering::weights::{
    calculate_decay_factor, chroma_level, chroma_level_fits, decay_fits, decay_of, shift_of_error,
};
use crate::types::FrameUpdateType;

verus! {

/// Configuration of the filter.
#[derive(Debug, Clone, Copy, PartialEq, Eq)]
pub struct RaTfScs {
    pub bit_depth: u8,
    pub qp: u32,
    /// One filters at a fixed strength, more at one that adapts.
    pub enable_tf: u8,
    pub tf_strength: u8,
    /// Strength of key frames, where they have their own.
    pub kf_tf_strength: Option<u8>,
    pub tf_ref_qp_based_th_scaling: bool,
    pub vq_sharpness_tf: bool,
    pub calculate_variance: bool,
    pub compute_psnr: bool,
    pub compute_ssim: bool,
    pub enc_mode: i8,
    pub sb_size: i32,
    /// Regions that brightness is measured in.
    pub regions_per_width: usize,
    pub regions_per_height: usize,
    pub tf_segment_row_count: u32,
    pub tf_segment_column_count: u32,
    pub true_width: u32,
    pub true_height: u32,
    pub aligned_width: u32,
    pub aligned_height: u32,
}

/// Rows and columns of segments a picture is filtered in.
pub fn tf_segment_counts(aligned_width: u32, aligned_height: u32) -> (r: (u32, u32))
    requires
        aligned_width <= u32::MAX - 32,
        aligned_height <= u32::MAX - 32,
    ensures
        r.0 == if (aligned_height + 32) / 64 < 6 {
            1u32
        } else {
            8u32
        },
        r.1 == if (aligned_width + 32) / 64 < 10 {
            1u32
        } else {
            6u32
        },
{
    let rows: u32 = if (aligned_height + 32) / 64 < 6 {
        1
    } else {
        8
    };
    let cols: u32 = if (aligned_width + 32) / 64 < 10 {
        1
    } else {
        6
    };
    (rows, cols)
}

/// Start of strip `s` of `n` blocks cut into `strips`.
pub open spec fn strip_start(s: int, n: int, strips: int) -> int {
    s * n / strips
}

/// The blocks of a segment: the first column and one past the last, then the
/// first row and one past the last. Segments are counted row by row.
pub fn tf_segment_block_rect(
    seg_idx: usize,
    seg_cols: usize,
    seg_rows: usize,
    blk_cols: usize,
    blk_rows: usize,
) -> (r: (usize, usize, usize, usize))
    requires
        0 < seg_cols,
        0 < seg_rows,
        seg_idx < seg_cols * seg_rows,
        seg_cols * blk_cols <= usize::MAX,
        seg_rows * blk_rows <= usize::MAX,
    ensures
        r.0 == strip_start(seg_idx as int % seg_cols as int, blk_cols as int, seg_cols as int),
        r.1 == strip_start(seg_idx as int % seg_cols as int + 1, blk_cols as int, seg_cols as int),
        r.2 == strip_start(seg_idx as int / seg_cols as int, blk_rows as int, seg_rows as int),
        r.3 == strip_start(seg_idx as int / seg_cols as int + 1, blk_rows as int, seg_rows as int),
        r.0 <= r.1 <= blk_cols,
        r.2 <= r.3 <= blk_rows,
{
    proof {
        lemma_raster_split(seg_idx as int, seg_cols as int, seg_rows as int);
        lemma_strip_bounds(seg_idx as int % seg_cols as int, blk_cols as int, seg_cols as int);
        lemma_strip_bounds(seg_idx as int / seg_cols as int, blk_rows as int, seg_rows as int);
    }
    let y_seg: usize = seg_idx / seg_cols;
    let x_seg: usize = seg_idx % seg_cols;
    (
        x_seg * blk_cols / seg_cols,
        (x_seg + 1) * blk_cols / seg_cols,
        y_seg * blk_rows / seg_rows,
        (y_seg + 1) * blk_rows / seg_rows,
    )
}

proof fn lemma_strip_bounds(s: int, n: int, strips: int)
    requires
        0 <= s < strips,
        0 <= n,
    ensures
        0 <= s * n <= (s + 1) * n <= strips * n,
        0 <= strip_start(s, n, strips) <= strip_start(s + 1, n, strips) <= n,
{
    lemma_mul_nonnegative(s, n);
    lemma_mul_inequality(s, s + 1, n);
    lemma_mul_inequality(s + 1, strips, n);
    lemma_div_is_ordered(s * n, (s + 1) * n, strips);
    lemma_div_is_ordered((s + 1) * n, strips * n, strips);
    lemma_mul_is_commutative(strips, n);
    lemma_div_multiples_vanish(n, strips);
    lemma_div_pos_is_pos(s * n, strips);
}

/// Block `x` lies in strip `s`.
pub open spec fn in_strip(x: int, s: int, n: int, strips: int) -> bool {
    0 <= s < strips && strip_start(s, n, strips) <= x < strip_start(s + 1, n, strips)
}

proof fn lemma_find_strip(x: int, n: int, strips: int, s: int) -> (t: int)
    requires
        0 <= s < strips,
        0 <= n,
        strip_start(s, n, strips) <= x < n,
    ensures
        in_strip(x, t, n, strips),
        s <= t,
    decreases strips - s,
{
    if x < strip_start(s + 1, n, strips) {
        s
    } else if s + 1 < strips {
        lemma_find_strip(x, n, strips, s + 1)
    } else {
        lemma_mul_is_commutative(strips, n);
        lemma_div_multiples_vanish(n, strips);
        assert(false);
        s
    }
}

proof fn lemma_strips_ordered(s: int, t: int, n: int, strips: int)
    requires
        0 <= s <= t <= strips,
        0 < strips,
        0 <= n,
    ensures
        strip_start(s, n, strips) <= strip_start(t, n, strips),
{
    lemma_mul_inequality(s, t, n);
    lemma_div_is_ordered(s * n, t * n, strips);
}

/// The segments part the blocks of a picture: every block lies in exactly one
/// strip of columns, and likewise in one of rows.
pub proof fn strips_part_the_blocks(x: int, n: int, strips: int) -> (s: int)
    requires
        0 < strips,
        0 <= x < n,
    ensures
        in_strip(x, s, n, strips),
        forall|t: int| #[trigger] in_strip(x, t, n, strips) ==> t == s,
{
    assert(0 * n == 0) by (nonlinear_arith);
    lemma_div_basics(strips);
    let s = lemma_find_strip(x, n, strips, 0);
    assert forall|t: int| #[trigger] in_strip(x, t, n, strips) implies t == s by {
        if t < s {
            lemma_strips_ordered(t + 1, s, n, strips);
        } else if s < t {
            lemma_strips_ordered(s + 1, t, n, strips);
        }
    }
    s
}

/// Which levels of the hierarchical search run: whether it runs at all, and
/// its three levels.
pub fn tf_enable_hme_flags(hme_me_level: u8) -> (r: (u8, u8, u8, u8))
    ensures
        r == (
            1u8,
            1u8,
            if hme_me_level <= 2 {
                1u8
            } else {
                0u8
            },
            if hme_me_level == 0 {
                1u8
            } else {
                0u8
            },
        ),
{
    match hme_me_level {
        0 => (1, 1, 1, 1),
        1 | 2 => (1, 1, 1, 0),
        _ => (1, 1, 0, 0),
    }
}

/// The numbers from `from` to `to` in steps.
pub open spec fn stepped(from: int, to: int, step: int) -> Seq<usize>
    decreases max_int(to - from + 1, 0),
    when step > 0
{
    if from > to {
        Seq::empty()
    } else {
        seq![from as usize] + stepped(from + step, to, step)
    }
}

/// The window slots a picture is filtered with: those before it, then those
/// after it, each in steps.
pub open spec fn reference_slots(past: int, future: int, step: int) -> Seq<usize> {
    stepped(0, past - 1, step) + stepped(past + 1, past + future, step)
}

fn push_stepped(out: &mut Vec<usize>, from: usize, end: usize, step: usize)
    requires
        step > 0,
        end + step <= usize::MAX,
        from <= end,
    ensures
        final(out)@ == old(out)@ + stepped(from as int, end - 1, step as int),
{
    let ghost before = out@;
    let ghost all = stepped(from as int, end - 1, step as int);
    let mut i: usize = from;
    proof {
        assert(before + all =~= out@ + all);
    }
    while i < end
        invariant
            step > 0,
            i < end + step,
            end + step <= usize::MAX,
            before + all == out@ + stepped(i as int, end - 1, step as int),
        decreases end + step - i,
    {
        let ghost prior = out@;
        out.push(i);
        proof {
            let rest = stepped(i + step, end - 1, step as int);
            assert(stepped(i as int, end - 1, step as int) == seq![i] + rest);
            assert(prior + (seq![i] + rest) =~= prior.push(i) + rest);
        }
        i = i + step;
    }
    proof {
        assert(out@ + stepped(i as int, end - 1, step as int) =~= out@);
    }
}

/// The window slots a picture is filtered with.
pub fn tf_reference_slots(past: usize, future: usize, ref_frame_factor: u8) -> (r: Vec<usize>)
    requires
        past + future + 1 + 255 <= usize::MAX,
    ensures
        r@ == reference_slots(
            past as int,
            future as int,
            if ref_frame_factor < 1 {
                1
            } else {
                ref_frame_factor as int
            },
        ),
{
    let step: usize = if ref_frame_factor < 1 {
        1
    } else {
        ref_frame_factor as usize
    };
    let mut out: Vec<usize> = Vec::new();
    push_stepped(&mut out, 0, past, step);
    push_stepped(&mut out, past + 1, past + future + 1, step);
    proof {
        assert(Seq::<usize>::empty() + stepped(0, past - 1, step as int) =~= stepped(0, past - 1, step as int));
    }
    out
}

/// A reference is left out because it differs much more from the picture than
/// the window's pictures do on average.
pub open spec fn differs_too_much(ahd: int, avg: int, area: int, is_islice: bool) -> bool {
    ahd > area && (ahd - avg) * 100 > (if is_islice {
        20int
    } else {
        40
    }) * avg
}

/// Whether a reference is left out because it differs much more from the
/// picture than the window's pictures do on average.
pub fn tf_differs_too_much(
    ahd_error_to_central: u32,
    tf_avg_ahd_error: u32,
    aligned_width: u32,
    aligned_height: u32,
    is_islice: bool,
) -> (r: bool)
    requires
        aligned_width * aligned_height <= u32::MAX,
    ensures
        r == differs_too_much(
            ahd_error_to_central as int,
            tf_avg_ahd_error as int,
            aligned_width * aligned_height,
            is_islice,
        ),
{
    let area: i64 = (aligned_width * aligned_height) as i64;
    let th: i64 = if is_islice {
        20
    } else {
        40
    };
    let ahd: i64 = ahd_error_to_central as i64;
    let avg: i64 = tf_avg_ahd_error as i64;
    ahd > area && (ahd - avg) * 100 > th * avg
}

/// Intensity of region `i`; zero where none was measured.
pub open spec fn intensity(regions: Option<Seq<u8>>, i: int) -> int {
    match regions {
        Some(s) => s[i] as int,
        None => 0,
    }
}

/// One where the brightness of a region has changed, and zero where not.
pub open spec fn bright_terms(member: Option<Seq<u8>>, centre: Option<Seq<u8>>) -> spec_fn(int) -> int {
    |i: int|
        if abs_int(intensity(member, i) - intensity(centre, i)) > 2 {
            1
        } else {
            0
        }
}

/// A reference is left out because its brightness has changed nearly
/// everywhere. Where the pictures are equally bright on average, no region
/// counts.
pub open spec fn brightness_changed(
    member: Option<Seq<u8>>,
    centre: Option<Seq<u8>>,
    regions: int,
    equally_bright: bool,
) -> bool {
    (if equally_bright {
        0
    } else {
        total(bright_terms(member, centre), regions)
    }) >= 14 * regions / 16
}

/// Whether a reference is left out because its brightness has changed nearly
/// everywhere.
pub fn tf_brightness_changed(
    member_regions: Option<&[u8]>,
    centre_regions: Option<&[u8]>,
    regions: usize,
    equally_bright: bool,
) -> (r: bool)
    requires
        14 * regions <= usize::MAX,
        member_regions is Some ==> regions <= (member_regions->0)@.len(),
        centre_regions is Some ==> regions <= (centre_regions->0)@.len(),
    ensures
        r == brightness_changed(
            match member_regions {
                Some(s) => Some(s@),
                None => None,
            },
            match centre_regions {
                Some(s) => Some(s@),
                None => None,
            },
            regions as int,
            equally_bright,
        ),
{
    let ghost member = match member_regions {
        Some(s) => Some(s@),
        None => None,
    };
    let ghost centre = match centre_regions {
        Some(s) => Some(s@),
        None => None,
    };
    let ghost f = bright_terms(member, centre);
    let mut count: usize = 0;
    let mut i: usize = 0;
    while i < regions
        invariant
            i <= regions,
            count <= i,
            member_regions is Some ==> regions <= (member_regions->0)@.len(),
            centre_regions is Some ==> regions <= (centre_regions->0)@.len(),
            member == (match member_regions {
                Some(s) => Some(s@),
                None => None,
            }),
            centre == (match centre_regions {
                Some(s) => Some(s@),
                None => None,
            }),
            f == bright_terms(member, centre),
            count == if equally_bright {
                0
            } else {
                total(f, i as int)
            },
        decreases regions - i,
    {
        let m: i64 = match member_regions {
            Some(s) => s[i] as i64,
            None => 0,
        };
        let c: i64 = match centre_regions {
            Some(s) => s[i] as i64,
            None => 0,
        };
        let d: i64 = if m >= c {
            m - c
        } else {
            c - m
        };
        if d > 2 && !equally_bright {
            count = count + 1;
        }
        i = i + 1;
    }
    count >= 14 * regions / 16
}

/// What is known of a picture of the window.
#[derive(Debug)]
pub struct TfMember {
    /// How far it differs from the picture that is filtered.
    pub ahd_error_to_central: u32,
    pub avg_luma: u64,
    /// Intensities of its regions, where they were measured.
    pub regions: Option<Vec<u8>>,
}

/// What a picture of the window is compared with.
#[derive(Debug)]
pub struct TfWindowStats {
    /// Average difference of the window.
    pub tf_avg_ahd_error: u32,
    pub tf_avg_luma: u64,
    pub is_islice: bool,
    pub aligned_width: u32,
    pub aligned_height: u32,
    /// Number of regions.
    pub regions: usize,
    /// Intensities of the regions of the picture that is filtered.
    pub centre_regions: Option<Vec<u8>>,
}

/// Intensities of regions as a sequence.
pub open spec fn region_view(r: Option<Vec<u8>>) -> Option<Seq<u8>> {
    match r {
        Some(v) => Some(v@),
        None => None,
    }
}

/// The picture takes part in the filter.
pub open spec fn takes_part(m: TfMember, w: TfWindowStats) -> bool {
    &&& !differs_too_much(
        m.ahd_error_to_central as int,
        w.tf_avg_ahd_error as int,
        w.aligned_width * w.aligned_height,
        w.is_islice,
    )
    &&& !brightness_changed(
        region_view(m.regions),
        region_view(w.centre_regions),
        w.regions as int,
        m.avg_luma == w.tf_avg_luma,
    )
}

/// The regions have been measured completely, or not at all.
pub open spec fn regions_fit(r: Option<Vec<u8>>, n: int) -> bool {
    r is Some ==> n <= (r->0)@.len()
}

/// Whether a picture takes part in the filter.
pub fn tf_takes_part(m: &TfMember, w: &TfWindowStats) -> (r: bool)
    requires
        w.aligned_width * w.aligned_height <= u32::MAX,
        14 * w.regions <= usize::MAX,
        regions_fit(m.regions, w.regions as int),
        regions_fit(w.centre_regions, w.regions as int),
    ensures
        r == takes_part(*m, *w),
{
    if tf_differs_too_much(
        m.ahd_error_to_central,
        w.tf_avg_ahd_error,
        w.aligned_width,
        w.aligned_height,
        w.is_islice,
    ) {
        return false;
    }
    let member: Option<&[u8]> = match &m.regions {
        Some(v) => Some(v.as_slice()),
        None => None,
    };
    let centre: Option<&[u8]> = match &w.centre_regions {
        Some(v) => Some(v.as_slice()),
        None => None,
    };
    !tf_brightness_changed(member, centre, w.regions, m.avg_luma == w.tf_avg_luma)
}

/// The slots among the first `n` whose pictures take part.
pub open spec fn taking_part(slots: Seq<usize>, members: Seq<TfMember>, w: TfWindowStats, n: int) -> Seq<usize>
    decreases n,
{
    if n <= 0 {
        Seq::empty()
    } else if takes_part(members[slots[n - 1] as int], w) {
        taking_part(slots, members, w, n - 1).push(slots[n - 1])
    } else {
        taking_part(slots, members, w, n - 1)
    }
}

/// The window slots whose pictures take part in the filter, in order.
pub fn tf_kept_slots(slots: &Vec<usize>, members: &Vec<TfMember>, w: &TfWindowStats) -> (r: Vec<usize>)
    requires
        w.aligned_width * w.aligned_height <= u32::MAX,
        14 * w.regions <= usize::MAX,
        regions_fit(w.centre_regions, w.regions as int),
        forall|i: int| 0 <= i < members@.len() ==> regions_fit((#[trigger] members@[i]).regions, w.regions as int),
        forall|i: int| 0 <= i < slots@.len() ==> (#[trigger] slots@[i]) < members@.len(),
    ensures
        r@ == taking_part(slots@, members@, *w, slots@.len() as int),
{
    let mut out: Vec<usize> = Vec::new();
    let mut n: usize = 0;
    while n < slots.len()
        invariant
            n <= slots@.len(),
            w.aligned_width * w.aligned_height <= u32::MAX,
            14 * w.regions <= usize::MAX,
            regions_fit(w.centre_regions, w.regions as int),
            forall|i: int| 0 <= i < members@.len() ==> regions_fit((#[trigger] members@[i]).regions, w.regions as int),
            forall|i: int| 0 <= i < slots@.len() ==> (#[trigger] slots@[i]) < members@.len(),
            out@ == taking_part(slots@, members@, *w, n as int),
        decreases slots@.len() - n,
    {
        assert(slots@[n as int] < members@.len());
        let slot: usize = slots[n];
        if tf_takes_part(&members[slot], w) {
            out.push(slot);
        }
        n = n + 1;
    }
    out
}

/// The picture that is filtered, as far as its strength goes.
#[derive(Debug, Clone, Copy, PartialEq, Eq)]
pub struct TfCentre {
    pub is_ref: bool,
    pub is_key_frame: bool,
    pub is_islice: bool,
    pub temporal_layer_index: u8,
    pub hierarchical_levels: u8,
    pub is_noise_level: bool,
    /// How far filtering has changed the last intra frame.
    pub filt_to_unfilt_diff: i32,
    /// Noise of the three planes.
    pub noise_levels_log1p_fp16: [i32; 3],
    pub pic_avg_variance: u16,
}

/// How the picture updates the reference buffers.
pub fn tf_frame_update_type(is_key_frame: bool, hierarchical_levels: u8, temporal_layer_index: u8) -> (r: FrameUpdateType)
    ensures
        r is Kf <==> is_key_frame,
        r is Arf <==> !is_key_frame && hierarchical_levels > 0 && temporal_layer_index == 0,
        r is IntnlArf <==> !is_key_frame && hierarchical_levels > 0 && temporal_layer_index != 0
            && temporal_layer_index != hierarchical_levels,
        r is Lf <==> !(r is Kf || r is Arf || r is IntnlArf),
{
    frame_update_type(is_key_frame, hierarchical_levels, temporal_layer_index)
}

/// Slot of the quantizer offset of a picture.
pub open spec fn offset_slot(c: TfCentre) -> int {
    if !c.is_ref {
        -1
    } else if c.is_key_frame {
        0
    } else {
        min_int(c.temporal_layer_index + 1, 5)
    }
}

/// Quantizer the filter aims at, from that of the sequence.
pub fn tf_target_q(q_val_fp8: i32, centre: &TfCentre) -> (r: i32)
    requires
        target_fits(q_val_fp8 as int, offset_slot(*centre), centre.hierarchical_levels as int),
    ensures
        r == target_q(q_val_fp8 as int, offset_slot(*centre), centre.hierarchical_levels as int),
{
    let slot: i32 = tf_qp_offset_idx(centre.is_ref, centre.is_key_frame, centre.temporal_layer_index as i32);
    tf_q_val_target_fp8(q_val_fp8, slot, centre.hierarchical_levels as u32)
}

/// Seven tenths, with sixteen fraction bits.
pub const CONST_0DOT7_FP16: i32 = 45875;

/// Sharpness calls for the weakest filter.
pub open spec fn is_sharp(scs: RaTfScs, c: TfCentre) -> bool {
    scs.vq_sharpness_tf && c.is_noise_level && scs.calculate_variance && c.pic_avg_variance < VQ_PIC_AVG_VARIANCE_TH
}

/// Decay control of luma.
pub open spec fn luma_control(scs: RaTfScs, c: TfCentre) -> int {
    if is_sharp(scs, c) {
        1
    } else if !c.is_islice && change_ratio(c.filt_to_unfilt_diff as int, c.noise_levels_log1p_fp16[0] as int) > 150 {
        4
    } else {
        3
    }
}

/// Decay control of chroma.
pub open spec fn chroma_control(scs: RaTfScs, c: TfCentre) -> int {
    if is_sharp(scs, c) {
        1
    } else {
        6
    }
}

/// Decay of a quantizer.
pub open spec fn quantizer_decay(q: int) -> int {
    if q >= 128 {
        (q * q) / 32
    } else {
        max_int(wrap_i32(4 * q), 1)
    }
}

/// Weight shift of a picture. Key frames may have a strength of their own,
/// or else count as a little weaker where sharpness matters.
pub open spec fn weight_shift(scs: RaTfScs, is_kf: bool) -> int {
    let base = if scs.enable_tf > 1 {
        shift_of_error(0)
    } else {
        14 - scs.tf_strength
    };
    if !is_kf {
        base
    } else if scs.enable_tf > 1 {
        min_int(base + 1, 14)
    } else if scs.kf_tf_strength is Some {
        14 - scs.kf_tf_strength->0
    } else if scs.vq_sharpness_tf {
        min_int(base + 1, 14)
    } else {
        base
    }
}

/// Decay level of a plane.
pub open spec fn decay_level(scs: RaTfScs, c: TfCentre, plane: int) -> int {
    chroma_level(
        if plane == 0 {
            luma_control(scs, c)
        } else {
            chroma_control(scs, c)
        },
        CONST_0DOT7_FP16 as int,
        c.noise_levels_log1p_fp16[plane] as int,
    )
}

/// Decay factor of a plane: nothing is filtered on a key frame whose shift is
/// the largest there is, and chroma that is not filtered keeps one.
pub open spec fn decay_factor(scs: RaTfScs, c: TfCentre, is_kf: bool, tf_chroma: bool, q: int, plane: int) -> int {
    if is_kf && weight_shift(scs, is_kf) == 14 {
        0
    } else if plane > 0 && !tf_chroma {
        0x1_0000
    } else {
        decay_of(decay_level(scs, c, plane), quantizer_decay(q), weight_shift(scs, is_kf) as nat)
    }
}

/// The strength is computed without overflow.
pub open spec fn strength_fits(scs: RaTfScs, c: TfCentre, is_kf: bool, tf_chroma: bool, q: int) -> bool {
    &&& scs.tf_strength <= 14
    &&& scs.kf_tf_strength is Some ==> scs.kf_tf_strength->0 <= 14
    &&& i32::MIN <= c.filt_to_unfilt_diff * 100 <= i32::MAX
    &&& i32::MIN <= q <= 46340
    &&& 0 <= weight_shift(scs, is_kf) < 64
    &&& forall|p: int|
        0 <= p < 3 && (p == 0 || tf_chroma) ==> {
            &&& chroma_level_fits(
                if p == 0 {
                    luma_control(scs, c)
                } else {
                    chroma_control(scs, c)
                },
                CONST_0DOT7_FP16 as int,
                c.noise_levels_log1p_fp16[p] as int,
            )
            &&& decay_fits(#[trigger] decay_level(scs, c, p), quantizer_decay(q))
        }
}

/// Decay factors of the three planes of a picture, from the quantizer `q`
/// that the filter aims at.
pub fn tf_decay_factors(scs: &RaTfScs, centre: &TfCentre, is_kf: bool, tf_chroma: bool, q: i32) -> (r: [u32; 3])
    requires
        strength_fits(*scs, *centre, is_kf, tf_chroma, q as int),
    ensures
        forall|p: int|
            0 <= p < 3 ==> #[trigger] r[p] == decay_factor(*scs, *centre, is_kf, tf_chroma, q as int, p),
{
    let control: [i32; 3] = derive_decay_control(
        scs.vq_sharpness_tf,
        centre.is_noise_level,
        scs.calculate_variance,
        centre.pic_avg_variance,
        centre.is_islice,
        centre.filt_to_unfilt_diff,
        &centre.noise_levels_log1p_fp16,
    );
    let q_decay: u32 = tf_q_decay_fp8(q);
    let shift: TfShiftDecision = derive_tf_shift(
        scs.enable_tf,
        scs.tf_strength,
        scs.vq_sharpness_tf,
        is_kf,
        0,
    );
    let factor: u8 = if !is_kf {
        shift.shift_factor
    } else if scs.enable_tf > 1 {
        shift.kf_shift_factor
    } else {
        match scs.kf_tf_strength {
            Some(s) => 14 - s,
            None => shift.kf_shift_factor,
        }
    };
    assert(factor == weight_shift(*scs, is_kf));
    if is_kf && factor == 14 {
        return [0, 0, 0];
    }
    proof {
        let l0 = decay_level(*scs, *centre, 0);
        let l1 = decay_level(*scs, *centre, 1);
        let l2 = decay_level(*scs, *centre, 2);
        assert(decay_fits(l0, quantizer_decay(q as int)));
        assert(tf_chroma ==> decay_fits(l1, quantizer_decay(q as int)));
        assert(tf_chroma ==> decay_fits(l2, quantizer_decay(q as int)));
    }
    let mut decay: [u32; 3] = [0x1_0000; 3];
    let mut n_decay: i32 = (control[0] * (CONST_0DOT7_FP16 + centre.noise_levels_log1p_fp16[0])) / 64;
    calculate_decay_factor(
        &mut decay,
        &mut n_decay,
        q_decay,
        control[1],
        control[2],
        CONST_0DOT7_FP16,
        &centre.noise_levels_log1p_fp16,
        factor,
        tf_chroma,
    );
    decay
}

} // verus!