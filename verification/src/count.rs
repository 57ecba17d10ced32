use vstd::prelude::*;

verus! {

/// A sum that stops at `limit`.
pub open spec fn saturated(sum: nat, limit: nat) -> nat {
    if sum > limit {
        limit
    } else {
        sum
    }
}

/// An unsigned integer type that a histogram counts in. Its width bounds
/// the weight that the histogram can hold at one value: a narrow type
/// makes a small histogram that saturates early.
pub trait Count: Copy {
    /// The largest number of the type.
    spec fn limit() -> nat;

    /// The number that a value stands for.
    spec fn number(self) -> nat;

    proof fn number_is_bounded(self)
        ensures
            self.number() <= Self::limit(),
    ;

    fn one() -> (one: Self)
        ensures
            one.number() == 1,
    ;

    fn into_u64(self) -> (number: u64)
        ensures
            number == self.number(),
    ;

    /// The sum, or the largest number of the type where the sum is above it.
    fn add_saturating(self, other: Self) -> (sum: Self)
        ensures
            sum.number() == saturated(self.number() + other.number(), Self::limit()),
    ;
}

impl Count for u8 {
    open spec fn limit() -> nat {
        0xff
    }

    open spec fn number(self) -> nat {
        self as nat
    }

    proof fn number_is_bounded(self) {
    }

    fn one() -> (one: u8) {
        1
    }

    fn into_u64(self) -> (number: u64) {
        self as u64
    }

    fn add_saturating(self, other: u8) -> (sum: u8) {
        self.saturating_add(other)
    }
}

impl Count for u16 {
    open spec fn limit() -> nat {
        0xffff
    }

    open spec fn number(self) -> nat {
        self as nat
    }

    proof fn number_is_bounded(self) {
    }

    fn one() -> (one: u16) {
        1
    }

    fn into_u64(self) -> (number: u64) {
        self as u64
    }

    fn add_saturating(self, other: u16) -> (sum: u16) {
        self.saturating_add(other)
    }
}

impl Count for u32 {
    open spec fn limit() -> nat {
        0xffff_ffff
    }

    open spec fn number(self) -> nat {
        self as nat
    }

    proof fn number_is_bounded(self) {
    }

    fn one() -> (one: u32) {
        1
    }

    fn into_u64(self) -> (number: u64) {
        self as u64
    }

    fn add_saturating(self, other: u32) -> (sum: u32) {
        self.saturating_add(other)
    }
}

impl Count for u64 {
    open spec fn limit() -> nat {
        0xffff_ffff_ffff_ffff
    }

    open spec fn number(self) -> nat {
        self as nat
    }

    proof fn number_is_bounded(self) {
    }

    fn one() -> (one: u64) {
        1
    }

    fn into_u64(self) -> (number: u64) {
        self
    }

    fn add_saturating(self, other: u64) -> (sum: u64) {
        self.saturating_add(other)
    }
}

} // verus!
