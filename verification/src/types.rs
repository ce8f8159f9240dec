//! Block sizes, prediction modes and the small vocabulary of inter
//! prediction.

use vstd::prelude::*;

verus! {

/// Number of block sizes.
pub const BLOCK_SIZES_ALL: usize = 22;

/// Block sizes, in coding order: the nearly square ones by area, then the
/// four-to-one ones.
#[derive(Debug, Clone, Copy, PartialEq, Eq, Structural)]
pub enum BlockSize {
    Block4x4,
    Block4x8,
    Block8x4,
    Block8x8,
    Block8x16,
    Block16x8,
    Block16x16,
    Block16x32,
    Block32x16,
    Block32x32,
    Block32x64,
    Block64x32,
    Block64x64,
    Block64x128,
    Block128x64,
    Block128x128,
    Block4x16,
    Block16x4,
    Block8x32,
    Block32x8,
    Block16x64,
    Block64x16,
}

/// Block widths in samples.
pub const BLOCK_SIZE_WIDE: [usize; 22] = [
    4, 4, 8, 8, 8, 16, 16, 16, 32, 32, 32, 64, 64, 64, 128, 128, 4, 16, 8, 32, 16, 64,
];

/// Block heights in samples.
pub const BLOCK_SIZE_HIGH: [usize; 22] = [
    4, 8, 4, 8, 16, 8, 16, 32, 16, 32, 64, 32, 64, 128, 64, 128, 16, 4, 32, 8, 64, 16,
];

impl BlockSize {
    /// Position in coding order.
    pub open spec fn index(self) -> int {
        match self {
            BlockSize::Block4x4 => 0,
            BlockSize::Block4x8 => 1,
            BlockSize::Block8x4 => 2,
            BlockSize::Block8x8 => 3,
            BlockSize::Block8x16 => 4,
            BlockSize::Block16x8 => 5,
            BlockSize::Block16x16 => 6,
            BlockSize::Block16x32 => 7,
            BlockSize::Block32x16 => 8,
            BlockSize::Block32x32 => 9,
            BlockSize::Block32x64 => 10,
            BlockSize::Block64x32 => 11,
            BlockSize::Block64x64 => 12,
            BlockSize::Block64x128 => 13,
            BlockSize::Block128x64 => 14,
            BlockSize::Block128x128 => 15,
            BlockSize::Block4x16 => 16,
            BlockSize::Block16x4 => 17,
            BlockSize::Block8x32 => 18,
            BlockSize::Block32x8 => 19,
            BlockSize::Block16x64 => 20,
            BlockSize::Block64x16 => 21,
        }
    }

    /// Position in coding order.
    pub fn as_index(self) -> (r: usize)
        ensures
            r == self.index(),
            r < 22,
    {
        match self {
            BlockSize::Block4x4 => 0,
            BlockSize::Block4x8 => 1,
            BlockSize::Block8x4 => 2,
            BlockSize::Block8x8 => 3,
            BlockSize::Block8x16 => 4,
            BlockSize::Block16x8 => 5,
            BlockSize::Block16x16 => 6,
            BlockSize::Block16x32 => 7,
            BlockSize::Block32x16 => 8,
            BlockSize::Block32x32 => 9,
            BlockSize::Block32x64 => 10,
            BlockSize::Block64x32 => 11,
            BlockSize::Block64x64 => 12,
            BlockSize::Block64x128 => 13,
            BlockSize::Block128x64 => 14,
            BlockSize::Block128x128 => 15,
            BlockSize::Block4x16 => 16,
            BlockSize::Block16x4 => 17,
            BlockSize::Block8x32 => 18,
            BlockSize::Block32x8 => 19,
            BlockSize::Block16x64 => 20,
            BlockSize::Block64x16 => 21,
        }
    }

    /// Width in samples.
    pub open spec fn wide_spec(self) -> int {
        BLOCK_SIZE_WIDE[self.index()] as int
    }

    /// Height in samples.
    pub open spec fn high_spec(self) -> int {
        BLOCK_SIZE_HIGH[self.index()] as int
    }

    /// Width in samples.
    pub fn wide(self) -> (r: usize)
        ensures
            r == self.wide_spec(),
            4 <= r <= 128,
    {
        BLOCK_SIZE_WIDE[self.as_index()]
    }

    /// Height in samples.
    pub fn high(self) -> (r: usize)
        ensures
            r == self.high_spec(),
            4 <= r <= 128,
    {
        BLOCK_SIZE_HIGH[self.as_index()]
    }
}

/// A block can be predicted from two references when both sides have at
/// least eight samples.
pub open spec fn comp_ref_allowed(bsize: BlockSize) -> bool {
    bsize.wide_spec() >= 8 && bsize.high_spec() >= 8
}

/// Evaluates [`comp_ref_allowed`].
pub fn is_comp_ref_allowed(bsize: BlockSize) -> (r: bool)
    ensures
        r == comp_ref_allowed(bsize),
{
    bsize.wide() >= 8 && bsize.high() >= 8
}

/// Inter prediction modes, single-reference first.
#[derive(Debug, Clone, Copy, PartialEq, Eq, Structural)]
pub enum PredictionMode {
    NearestMv,
    NearMv,
    GlobalMv,
    NewMv,
    NearestNearestMv,
    NearNearMv,
    NearestNewMv,
    NewNearestMv,
    NearNewMv,
    NewNearMv,
    GlobalGlobalMv,
    NewNewMv,
}

impl PredictionMode {
    /// Position among the two-reference modes; single-reference modes are
    /// outside.
    pub open spec fn compound_index(self) -> Option<int> {
        match self {
            PredictionMode::NearestNearestMv => Some(0),
            PredictionMode::NearNearMv => Some(1),
            PredictionMode::NearestNewMv => Some(2),
            PredictionMode::NewNearestMv => Some(3),
            PredictionMode::NearNewMv => Some(4),
            PredictionMode::NewNearMv => Some(5),
            PredictionMode::GlobalGlobalMv => Some(6),
            PredictionMode::NewNewMv => Some(7),
            _ => None,
        }
    }

    /// Position among the two-reference modes.
    pub fn compound_mode_index(self) -> (r: Option<usize>)
        ensures
            match r {
                Some(i) => self.compound_index() == Some(i as int) && i < 8,
                None => self.compound_index() is None,
            },
    {
        match self {
            PredictionMode::NearestNearestMv => Some(0),
            PredictionMode::NearNearMv => Some(1),
            PredictionMode::NearestNewMv => Some(2),
            PredictionMode::NewNearestMv => Some(3),
            PredictionMode::NearNewMv => Some(4),
            PredictionMode::NewNearMv => Some(5),
            PredictionMode::GlobalGlobalMv => Some(6),
            PredictionMode::NewNewMv => Some(7),
            _ => None,
        }
    }

    /// The first motion vector is coded as a difference.
    pub open spec fn codes_first(self) -> bool {
        self is NewMv || self is NewNearestMv || self is NewNearMv || self is NewNewMv
    }

    /// The second motion vector is coded as a difference.
    pub open spec fn codes_second(self) -> bool {
        self is NearestNewMv || self is NearNewMv || self is NewNewMv
    }

    /// Some vector is taken from further down the candidate list.
    pub open spec fn has_near(self) -> bool {
        self is NearMv || self is NearNearMv || self is NearNewMv || self is NewNearMv
    }

    /// Which of the two motion vectors are coded as differences.
    pub fn coded_mvs(self) -> (r: (bool, bool))
        ensures
            r.0 == self.codes_first(),
            r.1 == self.codes_second(),
    {
        match self {
            PredictionMode::NewMv => (true, false),
            PredictionMode::NewNearestMv => (true, false),
            PredictionMode::NewNearMv => (true, false),
            PredictionMode::NewNewMv => (true, true),
            PredictionMode::NearestNewMv => (false, true),
            PredictionMode::NearNewMv => (false, true),
            _ => (false, false),
        }
    }

    /// Some vector is taken from further down the candidate list.
    pub fn have_nearmv(self) -> (r: bool)
        ensures
            r == self.has_near(),
    {
        match self {
            PredictionMode::NearMv => true,
            PredictionMode::NearNearMv => true,
            PredictionMode::NearNewMv => true,
            PredictionMode::NewNearMv => true,
            _ => false,
        }
    }
}

/// How two predictions are combined.
#[derive(Debug, Clone, Copy, PartialEq, Eq, Structural)]
pub enum CompoundType {
    Average,
    DistWtd,
    Wedge,
    DiffWtd,
}

/// How a block follows its motion.
#[derive(Debug, Clone, Copy, PartialEq, Eq, Structural)]
pub enum MotionMode {
    SimpleTranslation,
    ObmcCausal,
    WarpedCausal,
}

/// Kind of a global motion model.
#[derive(Debug, Clone, Copy, PartialEq, Eq, Structural)]
pub enum TransformationType {
    Identity,
    Translation,
    RotZoom,
    Affine,
}

/// A motion vector, in eighths of a sample.
#[derive(Debug, Clone, Copy, PartialEq, Eq, Structural)]
pub struct Mv {
    pub x: i16,
    pub y: i16,
}

/// Distances of a block to the frame edges, in eighths of a sample; towards
/// the left and the top they count down.
#[derive(Debug, Clone, Copy, PartialEq, Eq, Structural)]
pub struct MbEdges {
    pub to_left: i32,
    pub to_right: i32,
    pub to_top: i32,
    pub to_bottom: i32,
}

/// Slice types.
#[derive(Debug, Clone, Copy, PartialEq, Eq, Structural)]
pub enum SliceType {
    B,
    P,
    I,
}

/// What a frame does to the reference buffers of its group.
#[derive(Debug, Clone, Copy, PartialEq, Eq, Structural)]
pub enum FrameUpdateType {
    Kf,
    Lf,
    Gf,
    Arf,
    Overlay,
    IntnlOverlay,
    IntnlArf,
}

} // verus!
