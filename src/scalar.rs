use vstd::prelude::*;

verus! {

/// The arithmetic a matrix entry offers: addition, subtraction and
/// multiplication, each exact on the mathematical integer that the value
/// stands for, as long as the exact result is representable.
pub trait Scalar: Copy + Sized {
    /// The integer this value stands for.
    spec fn value(self) -> int;

    /// Whether the integer `v` is representable in this type.
    spec fn fits(v: int) -> bool;

    proof fn lemma_value_fits(self)
        ensures
            Self::fits(self.value()),
    ;

    /// Two values that stand for the same integer are the same value.
    proof fn lemma_value_injective(self, other: Self)
        requires
            self.value() == other.value(),
        ensures
            self == other,
    ;

    fn one() -> (r: Self)
        ensures
            r.value() == 1,
    ;

    fn plus(self, other: Self) -> (r: Self)
        requires
            Self::fits(self.value() + other.value()),
        ensures
            r.value() == self.value() + other.value(),
    ;

    fn minus(self, other: Self) -> (r: Self)
        requires
            Self::fits(self.value() - other.value()),
        ensures
            r.value() == self.value() - other.value(),
    ;

    fn times(self, other: Self) -> (r: Self)
        requires
            Self::fits(self.value() * other.value()),
        ensures
            r.value() == self.value() * other.value(),
    ;

    fn negate(self) -> (r: Self)
        requires
            Self::fits(-self.value()),
        ensures
            r.value() == -self.value(),
    ;
}

/// A scalar with an additive identity.
pub trait Zero: Scalar {
    fn zero() -> (r: Self)
        ensures
            r.value() == 0,
    ;
}

impl Scalar for i32 {
    open spec fn value(self) -> int {
        self as int
    }

    open spec fn fits(v: int) -> bool {
        i32::MIN <= v <= i32::MAX
    }

    proof fn lemma_value_fits(self) {
    }

    proof fn lemma_value_injective(self, other: Self) {
    }

    fn one() -> (r: Self) {
        1
    }

    fn plus(self, other: Self) -> (r: Self) {
        self + other
    }

    fn minus(self, other: Self) -> (r: Self) {
        self - other
    }

    fn times(self, other: Self) -> (r: Self) {
        self * other
    }

    fn negate(self) -> (r: Self) {
        -self
    }
}

impl Zero for i32 {
    fn zero() -> (r: Self) {
        0
    }
}

impl Scalar for i64 {
    open spec fn value(self) -> int {
        self as int
    }

    open spec fn fits(v: int) -> bool {
        i64::MIN <= v <= i64::MAX
    }

    proof fn lemma_value_fits(self) {
    }

    proof fn lemma_value_injective(self, other: Self) {
    }

    fn one() -> (r: Self) {
        1
    }

    fn plus(self, other: Self) -> (r: Self) {
        self + other
    }

    fn minus(self, other: Self) -> (r: Self) {
        self - other
    }

    fn times(self, other: Self) -> (r: Self) {
        self * other
    }

    fn negate(self) -> (r: Self) {
        -self
    }
}

impl Zero for i64 {
    fn zero() -> (r: Self) {
        0
    }
}

} // verus!
