//! The parts of a picture, of the decision process and of the sequence that
//! reference management and switch frames read and write.

use vstd::prelude::*;

verus! {

/// Number of slots in the decoded picture buffer.
pub const REF_FRAMES: usize = 8;

/// Number of references of an inter frame.
pub const INTER_REFS_PER_FRAME: usize = 7;

/// First backward reference.
pub const BWDREF_FRAME: i8 = 5;

/// First slot of the second layer, which has two.
pub const LAY1_OFF: u8 = 3;

/// Slot of the third layer.
pub const LAY2_OFF: u8 = 5;

/// How frames of a group refer to each other.
#[derive(Debug, Clone, Copy, PartialEq, Eq, Structural)]
pub enum PredStructure {
    /// Only to earlier frames in display order.
    LowDelay,
    /// To frames on both sides.
    RandomAccess,
}

/// Name the application gives a picture. It is never zero.
#[derive(Debug, Clone, Copy, PartialEq, Eq, Structural)]
pub struct PicId {
    id: u32,
}

impl PicId {
    /// The number behind the name.
    pub closed spec fn value(self) -> int {
        self.id as int
    }

    /// The name of a number, where it is not zero.
    pub fn new(id: u32) -> (r: Option<PicId>)
        ensures
            r is None <==> id == 0,
            r is Some ==> (r->0).value() == id,
    {
        if id == 0 {
            None
        } else {
            Some(PicId { id })
        }
    }

    /// The number behind the name.
    pub fn get(self) -> (r: u32)
        ensures
            r == self.value(),
    {
        self.id
    }
}

/// What the application asks for with a picture.
#[derive(Debug, Clone, Copy, PartialEq, Eq, Structural)]
pub struct RefMgmtEvents {
    /// Keep this picture under a name.
    pub store_id: Option<PicId>,
    /// Release the picture kept under a name.
    pub clear_id: Option<PicId>,
    /// Predict this picture only from the one kept under a name.
    pub use_id: Option<PicId>,
}

impl RefMgmtEvents {
    /// Nothing is asked for.
    pub open spec fn nothing() -> RefMgmtEvents {
        RefMgmtEvents { store_id: None, clear_id: None, use_id: None }
    }

    /// Something is asked for.
    pub open spec fn asks(self) -> bool {
        self.store_id is Some || self.clear_id is Some || self.use_id is Some
    }

    /// Something is asked for.
    pub fn any(self) -> (r: bool)
        ensures
            r == self.asks(),
    {
        self.store_id.is_some() || self.clear_id.is_some() || self.use_id.is_some()
    }
}

impl Default for RefMgmtEvents {
    fn default() -> (r: Self)
        ensures
            r == RefMgmtEvents::nothing(),
    {
        RefMgmtEvents { store_id: None, clear_id: None, use_id: None }
    }
}

/// The references of a picture and the slots it is written to.
#[derive(Debug, Clone, Copy, PartialEq, Eq)]
pub struct Av1RpsNode {
    /// Bit `i` is set where the picture is written to slot `i`.
    pub refresh_frame_mask: u8,
    /// Slot of each reference.
    pub ref_dpb_index: [u8; 7],
    /// Picture number of each reference.
    pub ref_poc_array: [u64; 7],
}

/// A picture.
#[derive(Debug, Clone, Copy, PartialEq, Eq)]
pub struct PicParams {
    pub picture_number: u64,
    pub decode_order: u64,
    pub temporal_layer_index: u8,
    pub is_overlay: bool,
    pub ref_mgmt: RefMgmtEvents,
    pub rps: Av1RpsNode,
    pub ref_list0_count: u8,
    pub ref_list1_count: u8,
    pub error_resilient_mode: bool,
    pub is_switch_frame: bool,
    pub sframe_ref_pruned: bool,
    pub picture_qp: u8,
    pub qp_on_the_fly: bool,
    pub sframe_qp_offset: i8,
    /// Order hint of each reference.
    pub ref_order_hint: [u32; 7],
    /// Order hint of each slot, as written in the header.
    pub dpb_order_hint: [u32; 8],
}

/// A slot of the decoded picture buffer.
#[derive(Debug, Clone, Copy, PartialEq, Eq, Structural)]
pub struct DpbEntry {
    pub picture_number: u64,
}

/// State that is carried from picture to picture.
#[derive(Debug, Clone, Copy, PartialEq, Eq)]
pub struct PicDecisionCtx {
    /// Name of the picture kept in each slot.
    pub pic_id_per_dpb_slot: [Option<PicId>; 8],
    pub dpb: [DpbEntry; 8],
    /// Number of the last key frame.
    pub key_poc: u64,
    /// Number of pictures in the current group.
    pub mg_size: u32,
    /// A switch frame is due at the next base-layer frame.
    pub sframe_due: bool,
    /// Hierarchy depth of the next group.
    pub sframe_hier_lvls: i32,
    /// Distance of the last base-layer frame from the last key frame.
    pub sframe_last_arf: u64,
    /// The next base-layer frame becomes a switch frame.
    pub next_arf_is_s: bool,
    pub lay0_toggle: u8,
    pub lay1_toggle: u8,
    /// Number of the last switch frame.
    pub sframe_poc: u64,
    /// Order hint of each slot.
    pub ref_order_hint: [u32; 8],
}

/// Counters of the encoder.
#[derive(Debug, Clone, Copy, PartialEq, Eq, Structural)]
pub struct EncCtxPicParams {
    /// Pictures since the last random access point.
    pub elapsed_non_cra_count: u32,
}

/// The reference buffers that low delay leaves out.
#[derive(Debug, Clone, Copy, PartialEq, Eq, Structural)]
pub struct MrpCtrls {
    pub ld_reduce_ref_buffs: u8,
}

/// Configuration of the sequence.
#[derive(Debug, Clone, Copy, PartialEq, Eq, Structural)]
pub struct SeqPicParams {
    pub rtc: bool,
    pub hierarchical_levels: u8,
    pub pred_structure: PredStructure,
    pub mrp_ctrls: MrpCtrls,
    /// Most pictures the application may keep at a time.
    pub max_managed_refs: u8,
}

} // verus!
