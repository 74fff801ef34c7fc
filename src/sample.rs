//! The capabilities that a sample type must offer to the window statistics.

use vstd::prelude::*;

verus! {

/// A bounded unsigned integer sample. Every value lies in `0 ..= max_int()`,
/// and `max_int()` fits in a `u32`, so that any window of samples can be summed
/// in a `u128` without overflow.
pub trait NumOps: Sized + Copy {
    /// The value of the sample as a mathematical integer.
    spec fn as_int(&self) -> int;

    /// The largest value that the type can represent.
    spec fn max_int() -> int;

    proof fn lemma_range(x: Self)
        ensures
            0 <= x.as_int() <= Self::max_int(),
    ;

    /// Two samples with the same value are the same sample.
    proof fn lemma_as_int_injective(x: Self, y: Self)
        ensures
            x.as_int() == y.as_int() ==> x == y,
    ;

    proof fn lemma_max_int()
        ensures
            1 <= Self::max_int() <= u32::MAX,
    ;

    /// The smallest representable value, zero.
    fn min_val() -> (r: Self)
        ensures
            r.as_int() == 0,
    ;

    /// The largest representable value.
    fn max_val() -> (r: Self)
        ensures
            r.as_int() == Self::max_int(),
    ;

    /// The additive unit.
    fn one() -> (r: Self)
        ensures
            r.as_int() == 1,
    ;

    /// `self < other`.
    fn less_than(&self, other: &Self) -> (r: bool)
        ensures
            r == (self.as_int() < other.as_int()),
    ;

    /// Addition that clamps at the largest representable value.
    fn saturating_add(self, other: Self) -> (r: Self)
        ensures
            r.as_int() == if self.as_int() + other.as_int() > Self::max_int() {
                Self::max_int()
            } else {
                self.as_int() + other.as_int()
            },
    ;

    fn sub(self, other: Self) -> (r: Self)
        requires
            other.as_int() <= self.as_int(),
        ensures
            r.as_int() == self.as_int() - other.as_int(),
    ;

    fn div(self, other: Self) -> (r: Self)
        requires
            other.as_int() > 0,
        ensures
            r.as_int() == self.as_int() / other.as_int(),
    ;

    /// Widening conversion to `u32`.
    fn to_u32(self) -> (r: u32)
        ensures
            r as int == self.as_int(),
    ;

    /// Narrowing conversion from `u32`, for a value that the type can hold.
    fn from_u32(v: u32) -> (r: Self)
        requires
            v as int <= Self::max_int(),
        ensures
            r.as_int() == v as int,
    ;
}

impl NumOps for u8 {
    open spec fn as_int(&self) -> int {
        *self as int
    }

    open spec fn max_int() -> int {
        u8::MAX as int
    }

    proof fn lemma_range(x: u8) {
    }

    proof fn lemma_max_int() {
    }

    proof fn lemma_as_int_injective(x: Self, y: Self) {
    }

    fn min_val() -> (r: u8) {
        0
    }

    fn max_val() -> (r: u8) {
        u8::MAX
    }

    fn one() -> (r: u8) {
        1
    }

    fn less_than(&self, other: &u8) -> (r: bool) {
        *self < *other
    }

    fn saturating_add(self, other: u8) -> (r: u8) {
        if self > u8::MAX - other {
            u8::MAX
        } else {
            self + other
        }
    }

    fn sub(self, other: u8) -> (r: u8) {
        self - other
    }

    fn div(self, other: u8) -> (r: u8) {
        self / other
    }

    fn to_u32(self) -> (r: u32) {
        self as u32
    }

    fn from_u32(v: u32) -> (r: u8) {
        v as u8
    }
}

impl NumOps for u16 {
    open spec fn as_int(&self) -> int {
        *self as int
    }

    open spec fn max_int() -> int {
        u16::MAX as int
    }

    proof fn lemma_range(x: u16) {
    }

    proof fn lemma_max_int() {
    }

    proof fn lemma_as_int_injective(x: Self, y: Self) {
    }

    fn min_val() -> (r: u16) {
        0
    }

    fn max_val() -> (r: u16) {
        u16::MAX
    }

    fn one() -> (r: u16) {
        1
    }

    fn less_than(&self, other: &u16) -> (r: bool) {
        *self < *other
    }

    fn saturating_add(self, other: u16) -> (r: u16) {
        if self > u16::MAX - other {
            u16::MAX
        } else {
            self + other
        }
    }

    fn sub(self, other: u16) -> (r: u16) {
        self - other
    }

    fn div(self, other: u16) -> (r: u16) {
        self / other
    }

    fn to_u32(self) -> (r: u32) {
        self as u32
    }

    fn from_u32(v: u32) -> (r: u16) {
        v as u16
    }
}

impl NumOps for u32 {
    open spec fn as_int(&self) -> int {
        *self as int
    }

    open spec fn max_int() -> int {
        u32::MAX as int
    }

    proof fn lemma_range(x: u32) {
    }

    proof fn lemma_max_int() {
    }

    proof fn lemma_as_int_injective(x: Self, y: Self) {
    }

    fn min_val() -> (r: u32) {
        0
    }

    fn max_val() -> (r: u32) {
        u32::MAX
    }

    fn one() -> (r: u32) {
        1
    }

    fn less_than(&self, other: &u32) -> (r: bool) {
        *self < *other
    }

    fn saturating_add(self, other: u32) -> (r: u32) {
        if self > u32::MAX - other {
            u32::MAX
        } else {
            self + other
        }
    }

    fn sub(self, other: u32) -> (r: u32) {
        self - other
    }

    fn div(self, other: u32) -> (r: u32) {
        self / other
    }

    fn to_u32(self) -> (r: u32) {
        self
    }

    fn from_u32(v: u32) -> (r: u32) {
        v
    }
}

} // verus!
