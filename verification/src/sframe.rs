//! Switch frames: where they go, what quantizer they use, how they rewrite
//! the reference structure, and which references they take away from frames
//! before them.

use vstd::arithmetic::power2::pow2;
use vstd::prelude::*;

pub mod laws;
pub mod plan;
pub mod refs;

use crate::arith::{clamp_int, min_int, pow2_i64};
use crate::picstruct::{PicParams, PredStructure};

verus! {

/// No switch frame at or after a picture.
pub const NO_SFRAME: i32 = -1;

/// Which frames become switch frames.
#[derive(Debug, Clone, Copy, PartialEq, Eq, Structural)]
pub enum SFrameMode {
    /// A scheduled frame, if it is in the base layer.
    StrictBase,
    /// The base-layer frame nearest to a scheduled one.
    NearestBase,
    /// A scheduled frame; groups are reshaped so that it is in the base
    /// layer.
    FlexibleBase,
    /// The same, scheduled in decoding order.
    DecPosiBase,
}

impl SFrameMode {
    /// Groups are reshaped.
    pub open spec fn reshapes(self) -> bool {
        self is FlexibleBase || self is DecPosiBase
    }

    /// Groups are reshaped.
    pub fn is_flexible_insert(self) -> (r: bool)
        ensures
            r == self.reshapes(),
    {
        self == SFrameMode::FlexibleBase || self == SFrameMode::DecPosiBase
    }
}

/// Numbers ascend.
pub open spec fn ascending(s: Seq<u64>) -> bool {
    forall|i: int, j: int| 0 <= i < j < s.len() ==> (#[trigger] s[i]) <= #[trigger] s[j]
}

/// The application's schedule of switch frames.
#[derive(Debug, Clone, Copy)]
pub struct SFramePositions<'a> {
    /// The picture numbers, ascending.
    pub positions: Option<&'a [u64]>,
    /// A quantizer for each, or zero.
    pub qps: Option<&'a [u8]>,
    /// A quantizer offset for each, or zero.
    pub qp_offsets: Option<&'a [i8]>,
}

impl<'a> SFramePositions<'a> {
    /// The picture numbers ascend.
    pub open spec fn wf(self) -> bool {
        self.positions is Some ==> ascending((self.positions->0)@)
    }
}

impl<'a> Default for SFramePositions<'a> {
    fn default() -> (r: Self)
        ensures
            r.positions is None,
            r.qps is None,
            r.qp_offsets is None,
    {
        SFramePositions { positions: None, qps: None, qp_offsets: None }
    }
}

/// Configuration of switch frames.
#[derive(Debug, Clone, Copy)]
pub struct SFrameConfig<'a> {
    pub mode: SFrameMode,
    /// Distance between switch frames; zero leaves it to the schedule.
    pub dist: i32,
    /// Quantizer; zero leaves it to the schedule.
    pub qp: u8,
    /// Quantizer offset; zero leaves it to the schedule.
    pub qp_offset: i8,
    pub positions: SFramePositions<'a>,
    pub hierarchical_levels: u8,
    pub pred_structure: PredStructure,
    pub intra_period_length: i32,
    pub min_qp_allowed: u8,
    pub max_qp_allowed: u8,
    /// Motion fields are estimated.
    pub mfmv_enabled: bool,
    pub order_hint_bits: u32,
}

/// First index from `i` on whose picture number is not below `n`.
pub open spec fn first_from(s: Seq<u64>, n: int, i: int) -> int
    decreases s.len() - i,
{
    if i >= s.len() || s[i] >= n {
        i
    } else {
        first_from(s, n, i + 1)
    }
}

/// A distance that counts in 32 bits.
pub open spec fn capped(x: int) -> int {
    min_int(x, i32::MAX as int)
}

/// Distance from a picture to the first scheduled switch frame at or after
/// it.
pub open spec fn dist_at(posi: SFramePositions, n: int) -> int {
    if posi.positions is None {
        -1
    } else {
        let s = (posi.positions->0)@;
        let i = first_from(s, n, 0);
        if i >= s.len() {
            -1
        } else {
            capped(s[i] - n)
        }
    }
}

/// Distance from a scheduled switch frame to the next entry of the schedule.
pub open spec fn dist_after(posi: SFramePositions, n: int) -> int {
    if posi.positions is None {
        -1
    } else {
        let s = (posi.positions->0)@;
        let i = first_from(s, n, 0);
        if i + 1 >= s.len() || s[i] != n {
            -1
        } else {
            capped(s[i + 1] - n)
        }
    }
}

proof fn lemma_first_from(s: Seq<u64>, n: int, i: int)
    requires
        0 <= i <= s.len(),
    ensures
        i <= first_from(s, n, i) <= s.len(),
        first_from(s, n, i) < s.len() ==> s[first_from(s, n, i)] >= n,
        forall|k: int| i <= k < first_from(s, n, i) ==> #[trigger] s[k] < n,
    decreases s.len() - i,
{
    if i < s.len() && s[i] < n {
        lemma_first_from(s, n, i + 1);
    }
}

fn capped_dist(from: u64, to: u64) -> (r: i32)
    requires
        from <= to,
    ensures
        r == capped(to - from),
{
    let d: u64 = to - from;
    if d > 0x7fff_ffff {
        i32::MAX
    } else {
        d as i32
    }
}

/// Distance from a picture to the first scheduled switch frame at or after
/// it, and, only where the picture is one, the distance to the next. Either
/// is [`NO_SFRAME`] where there is none.
pub fn dist_to_s(posi: &SFramePositions, picture_num: u64) -> (r: (i32, i32))
    requires
        posi.wf(),
    ensures
        r.0 == dist_at(*posi, picture_num as int),
        r.1 == dist_after(*posi, picture_num as int),
{
    match posi.positions {
        None => (NO_SFRAME, NO_SFRAME),
        Some(positions) => {
            let mut i: usize = 0;
            let len: usize = positions.len();
            while i < len
                invariant
                    ascending(positions@),
                    posi.positions == Some(positions),
                    len == positions@.len(),
                    i <= len,
                    first_from(positions@, picture_num as int, 0) == first_from(
                        positions@,
                        picture_num as int,
                        i as int,
                    ),
                decreases len - i,
            {
                let p: u64 = positions[i];
                if p >= picture_num {
                    let to_next: i32 = if p == picture_num && i + 1 < len {
                        assert(positions@[i as int] <= positions@[i + 1]);
                        capped_dist(picture_num, positions[i + 1])
                    } else {
                        NO_SFRAME
                    };
                    return (capped_dist(picture_num, p), to_next);
                }
                i = i + 1;
            }
            (NO_SFRAME, NO_SFRAME)
        },
    }
}

/// The distance is zero exactly at the scheduled pictures, and no switch
/// frame is scheduled closer than it says.
pub proof fn distances_are_exact(posi: SFramePositions, n: int, k: int)
    requires
        posi.wf(),
        posi.positions is Some,
        0 <= n <= u64::MAX,
        0 <= k < (posi.positions->0)@.len(),
    ensures
        (posi.positions->0)@[k] >= n ==> 0 <= dist_at(posi, n) <= (posi.positions->0)@[k] - n,
        (posi.positions->0)@[k] == n ==> dist_at(posi, n) == 0,
        dist_at(posi, n) == 0 ==> (posi.positions->0)@.contains(n as u64),
        dist_after(posi, n) >= 0 ==> dist_at(posi, n) == 0,
{
    let s = (posi.positions->0)@;
    lemma_first_from(s, n, 0);
    let i = first_from(s, n, 0);
    if s[k] >= n {
        assert(i <= k);
        if i < k {
            assert(s[i] <= s[k]);
        }
    }
    if dist_at(posi, n) == 0 {
        assert(s[i] == n as u64);
    }
}

/// First index from `i` on that holds `n`.
pub open spec fn index_from(s: Seq<u64>, n: u64, i: int) -> int
    decreases s.len() - i,
{
    if i >= s.len() || s[i] == n {
        i
    } else {
        index_from(s, n, i + 1)
    }
}

/// Index of the entry that applies to a picture: the first where there is no
/// schedule, and otherwise that of the picture, if it is scheduled.
pub open spec fn entry_index(positions: Option<Seq<u64>>, n: u64) -> Option<int> {
    match positions {
        None => Some(0),
        Some(s) => if index_from(s, n, 0) < s.len() {
            Some(index_from(s, n, 0))
        } else {
            None
        },
    }
}

fn find_entry(positions: Option<&[u64]>, picture_num: u64) -> (r: Option<usize>)
    ensures
        r is Some <==> entry_index(
            match positions {
                None => None,
                Some(s) => Some(s@),
            },
            picture_num,
        ) is Some,
        r is Some ==> r->0 == entry_index(
            match positions {
                None => None,
                Some(s) => Some(s@),
            },
            picture_num,
        )->0,
{
    match positions {
        None => Some(0),
        Some(s) => {
            let len: usize = s.len();
            let mut i: usize = 0;
            while i < len
                invariant
                    i <= len,
                    positions == Some(s),
                    len == s@.len(),
                    index_from(s@, picture_num, 0) == index_from(s@, picture_num, i as int),
                decreases len - i,
            {
                if s[i] == picture_num {
                    return Some(i);
                }
                i = i + 1;
            }
            None
        },
    }
}

/// The picture numbers of a schedule.
pub open spec fn numbers(posi: SFramePositions) -> Option<Seq<u64>> {
    match posi.positions {
        None => None,
        Some(s) => Some(s@),
    }
}

/// Scheduled quantizer of a picture, or zero.
pub open spec fn qp_at(posi: SFramePositions, n: u64) -> int {
    let k = entry_index(numbers(posi), n);
    if posi.qps is Some && k is Some && k->0 < (posi.qps->0)@.len() {
        (posi.qps->0)@[k->0] as int
    } else {
        0
    }
}

/// Scheduled quantizer offset of a picture, or zero.
pub open spec fn qp_offset_at(posi: SFramePositions, n: u64) -> int {
    let k = entry_index(numbers(posi), n);
    if posi.qp_offsets is Some && k is Some && k->0 < (posi.qp_offsets->0)@.len() {
        (posi.qp_offsets->0)@[k->0] as int
    } else {
        0
    }
}

/// Scheduled quantizer of a picture, or zero. Without a schedule the first
/// quantizer applies to every picture.
pub fn sframe_qp(posi: &SFramePositions, picture_num: u64) -> (r: u8)
    ensures
        r == qp_at(*posi, picture_num),
{
    match posi.qps {
        None => 0,
        Some(qps) => match find_entry(posi.positions, picture_num) {
            Some(i) => {
                if i < qps.len() {
                    qps[i]
                } else {
                    0
                }
            },
            None => 0,
        },
    }
}

/// Scheduled quantizer offset of a picture, or zero.
pub fn sframe_qp_offset(posi: &SFramePositions, picture_num: u64) -> (r: i8)
    ensures
        r == qp_offset_at(*posi, picture_num),
{
    match posi.qp_offsets {
        None => 0,
        Some(offsets) => match find_entry(posi.positions, picture_num) {
            Some(i) => {
                if i < offsets.len() {
                    offsets[i]
                } else {
                    0
                }
            },
            None => 0,
        },
    }
}

/// The value of eight bits read as a signed number.
pub open spec fn signed8(x: int) -> int {
    if x > 127 {
        x - 256
    } else {
        x
    }
}

/// The number by which a picture is looked up in the schedule.
pub open spec fn lookup_number(pic: PicParams, cfg: SFrameConfig) -> u64 {
    if cfg.mode is DecPosiBase {
        pic.decode_order
    } else {
        pic.picture_number
    }
}

/// Quantizer that is asked for; zero where none is.
pub open spec fn wanted_qp(pic: PicParams, cfg: SFrameConfig) -> int {
    if cfg.qp > 0 {
        cfg.qp as int
    } else {
        qp_at(cfg.positions, lookup_number(pic, cfg))
    }
}

/// Quantizer offset that is asked for; zero where none is.
pub open spec fn wanted_offset(pic: PicParams, cfg: SFrameConfig) -> int {
    if cfg.qp_offset != 0 {
        cfg.qp_offset as int
    } else {
        qp_offset_at(cfg.positions, lookup_number(pic, cfg))
    }
}

/// A quantizer in the allowed range. All three count in eight signed bits.
pub open spec fn allowed_qp(qp: int, cfg: SFrameConfig) -> int {
    clamp_int(signed8(qp), signed8(cfg.min_qp_allowed as int), signed8(cfg.max_qp_allowed as int)) % 256
}

/// The picture once its quantizer has been set up.
pub open spec fn with_qp(pic: PicParams, cfg: SFrameConfig) -> PicParams {
    let qp = wanted_qp(pic, cfg);
    let offset = wanted_offset(pic, cfg);
    PicParams {
        picture_qp: if qp > 0 {
            allowed_qp(qp, cfg) as u8
        } else {
            pic.picture_qp
        },
        qp_on_the_fly: pic.qp_on_the_fly || qp > 0,
        sframe_qp_offset: if offset != 0 {
            offset as i8
        } else {
            pic.sframe_qp_offset
        },
        ..pic
    }
}

/// The quantizer range is not empty.
pub open spec fn qp_range_ok(cfg: SFrameConfig) -> bool {
    signed8(cfg.min_qp_allowed as int) <= signed8(cfg.max_qp_allowed as int)
}

fn as_signed8(x: u8) -> (r: i16)
    ensures
        r == signed8(x as int),
{
    if x > 127 {
        x as i16 - 256
    } else {
        x as i16
    }
}

/// Sets up the quantizer of a switch frame.
pub fn setup_sframe_qp(pic: &mut PicParams, cfg: &SFrameConfig)
    requires
        wanted_qp(*old(pic), *cfg) > 0 ==> qp_range_ok(*cfg),
    ensures
        *final(pic) == with_qp(*old(pic), *cfg),
{
    let pic_num: u64 = if cfg.mode == SFrameMode::DecPosiBase {
        pic.decode_order
    } else {
        pic.picture_number
    };
    let qp: u8 = if cfg.qp > 0 {
        cfg.qp
    } else {
        sframe_qp(&cfg.positions, pic_num)
    };
    let offset: i8 = if cfg.qp_offset != 0 {
        cfg.qp_offset
    } else {
        sframe_qp_offset(&cfg.positions, pic_num)
    };
    if qp > 0 {
        let lo: i16 = as_signed8(cfg.min_qp_allowed);
        let hi: i16 = as_signed8(cfg.max_qp_allowed);
        let q: i16 = as_signed8(qp);
        let clipped: i16 = if q < lo {
            lo
        } else if q > hi {
            hi
        } else {
            q
        };
        pic.picture_qp = if clipped < 0 {
            (clipped + 256) as u8
        } else {
            clipped as u8
        };
        pic.qp_on_the_fly = true;
    }
    if offset != 0 {
        pic.sframe_qp_offset = offset;
    }
}

/// How far a schedule in decoding order runs ahead of display order.
pub open spec fn ahead(cfg: SFrameConfig) -> int {
    if cfg.mode is DecPosiBase && cfg.pred_structure is RandomAccess {
        1
    } else {
        0
    }
}

/// How far a schedule in decoding order runs ahead of display order.
pub fn position_offset(cfg: &SFrameConfig) -> (r: i32)
    ensures
        r == ahead(*cfg),
{
    if cfg.mode == SFrameMode::DecPosiBase && cfg.pred_structure == PredStructure::RandomAccess {
        1
    } else {
        0
    }
}

/// First depth from `lvl` on, below `hier`, that is the deepest whose group
/// fits into `dist` pictures; `hier` itself where none is.
pub open spec fn lowered_from(hier: int, dist: int, lvl: int) -> int
    decreases hier - lvl,
{
    if lvl >= hier {
        hier
    } else if dist < pow2((lvl + 1) as nat) {
        lvl
    } else {
        lowered_from(hier, dist, lvl + 1)
    }
}

/// The hierarchy depth lowered so that a group fits into `dist` pictures.
pub open spec fn lowered(hier: int, dist: int) -> int {
    lowered_from(hier, dist, 0)
}

pub(crate) fn downgrade_hier_lvls(hier: i32, dist: i32) -> (r: i32)
    requires
        0 <= hier <= 30,
    ensures
        r == lowered(hier as int, dist as int),
        0 <= r <= hier,
{
    let mut lvl: i32 = 0;
    while lvl < hier
        invariant
            0 <= lvl <= hier <= 30,
            lowered(hier as int, dist as int) == lowered_from(hier as int, dist as int, lvl as int),
        decreases hier - lvl,
    {
        let size: i64 = pow2_i64(lvl as u32 + 1);
        if (dist as i64) < size {
            return lvl;
        }
        lvl = lvl + 1;
    }
    hier
}

proof fn lemma_lowered(hier: int, dist: int, lvl: int)
    requires
        0 <= lvl <= hier,
        lvl > 0 ==> pow2(lvl as nat) <= dist,
    ensures
        lvl <= lowered_from(hier, dist, lvl) <= hier,
        lowered_from(hier, dist, lvl) < hier ==> dist < pow2((lowered_from(hier, dist, lvl) + 1) as nat),
        lowered_from(hier, dist, lvl) > 0 ==> pow2(lowered_from(hier, dist, lvl) as nat) <= dist,
    decreases hier - lvl,
{
    if lvl < hier && dist >= pow2((lvl + 1) as nat) {
        lemma_lowered(hier, dist, lvl + 1);
    }
}

/// Lowering never deepens a hierarchy, its group fits into the distance
/// unless it is flat, and the next deeper one would not.
pub proof fn lowered_groups_fit(hier: int, dist: int)
    requires
        0 <= hier,
    ensures
        0 <= lowered(hier, dist) <= hier,
        lowered(hier, dist) > 0 ==> pow2(lowered(hier, dist) as nat) <= dist,
        lowered(hier, dist) < hier ==> dist < pow2((lowered(hier, dist) + 1) as nat),
{
    lemma_lowered(hier, dist, 0);
}

} // verus!
