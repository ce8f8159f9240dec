//! Samples of either width.

use vstd::prelude::*;

use crate::arith::{low_u16, low_u8};

verus! {

/// A sample: an unsigned number of some width.
pub trait Pixel: Copy {
    /// The number.
    spec fn val(self) -> int;

    /// One more than the largest number.
    spec fn range() -> int;

    /// The number lies in its range.
    proof fn bounded(self)
        ensures
            0 <= self.val() < Self::range(),
            Self::range() <= 0x1_0000,
    ;

    /// The number.
    fn value(self) -> (r: u32)
        ensures
            r == self.val(),
    ;

    /// The sample with the low bits of a number.
    fn low(x: u32) -> (r: Self)
        ensures
            r.val() == x as int % Self::range(),
    ;
}

impl Pixel for u8 {
    open spec fn val(self) -> int {
        self as int
    }

    open spec fn range() -> int {
        0x100
    }

    proof fn bounded(self) {
    }

    fn value(self) -> (r: u32) {
        self as u32
    }

    fn low(x: u32) -> (r: Self) {
        low_u8(x)
    }
}

impl Pixel for u16 {
    open spec fn val(self) -> int {
        self as int
    }

    open spec fn range() -> int {
        0x1_0000
    }

    proof fn bounded(self) {
    }

    fn value(self) -> (r: u32) {
        self as u32
    }

    fn low(x: u32) -> (r: Self) {
        low_u16(x)
    }
}

} // verus!
