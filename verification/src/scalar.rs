//! The element type of a matrix: a ring with exact arithmetic.
use crate::modular::{
    lemma_plus_associates, lemma_plus_minus_cancels, lemma_times_associates,
    lemma_times_distributes_left, lemma_times_distributes_right, lemma_wrap_range,
    lemma_wrap_small, lemma_wrap_sum, wrap,
};
use vstd::prelude::*;

verus! {

/// What a matrix needs of its elements: a zero, a one, and an addition, a
/// subtraction and a multiplication that obey the ring laws on every input.
///
/// The laws are proof obligations of each implementation, so whatever is proved
/// of matrices over a `Scalar` holds of every implementing type. The machine's
/// signed integers meet them with arithmetic that wraps around.
pub trait Scalar: Copy + Sized {
    /// The additive identity; the value a fresh matrix is filled with.
    spec fn spec_zero() -> Self;

    /// The multiplicative identity.
    spec fn spec_one() -> Self;

    /// The sum of two elements.
    spec fn spec_plus(self, rhs: Self) -> Self;

    /// The difference of two elements.
    spec fn spec_minus(self, rhs: Self) -> Self;

    /// The product of two elements.
    spec fn spec_times(self, rhs: Self) -> Self;

    fn zero() -> (r: Self)
        ensures
            r == Self::spec_zero(),
    ;

    fn plus(self, rhs: Self) -> (r: Self)
        ensures
            r == self.spec_plus(rhs),
    ;

    fn minus(self, rhs: Self) -> (r: Self)
        ensures
            r == self.spec_minus(rhs),
    ;

    fn times(self, rhs: Self) -> (r: Self)
        ensures
            r == self.spec_times(rhs),
    ;

    proof fn lemma_plus_commutes(a: Self, b: Self)
        ensures
            a.spec_plus(b) == b.spec_plus(a),
    ;

    proof fn lemma_plus_associates(a: Self, b: Self, c: Self)
        ensures
            a.spec_plus(b).spec_plus(c) == a.spec_plus(b.spec_plus(c)),
    ;

    proof fn lemma_plus_zero(a: Self)
        ensures
            a.spec_plus(Self::spec_zero()) == a,
    ;

    proof fn lemma_plus_minus_cancels(a: Self, b: Self)
        ensures
            a.spec_plus(b).spec_minus(b) == a,
    ;

    proof fn lemma_times_associates(a: Self, b: Self, c: Self)
        ensures
            a.spec_times(b).spec_times(c) == a.spec_times(b.spec_times(c)),
    ;

    proof fn lemma_times_distributes(a: Self, b: Self, c: Self)
        ensures
            a.spec_times(b.spec_plus(c)) == a.spec_times(b).spec_plus(a.spec_times(c)),
            a.spec_plus(b).spec_times(c) == a.spec_times(c).spec_plus(b.spec_times(c)),
    ;

    proof fn lemma_times_zero(a: Self)
        ensures
            a.spec_times(Self::spec_zero()) == Self::spec_zero(),
            Self::spec_zero().spec_times(a) == Self::spec_zero(),
    ;

    proof fn lemma_times_one(a: Self)
        ensures
            a.spec_times(Self::spec_one()) == a,
            Self::spec_one().spec_times(a) == a,
    ;
}

/// Half the number of values of an `i64`: `2^63`.
pub open spec fn half_i64() -> int {
    0x8000_0000_0000_0000
}

/// Half the number of values of an `i32`: `2^31`.
pub open spec fn half_i32() -> int {
    0x8000_0000
}

impl Scalar for i64 {
    open spec fn spec_zero() -> i64 {
        0
    }

    open spec fn spec_one() -> i64 {
        1
    }

    open spec fn spec_plus(self, rhs: i64) -> i64 {
        wrap(self + rhs, half_i64()) as i64
    }

    open spec fn spec_minus(self, rhs: i64) -> i64 {
        wrap(self - rhs, half_i64()) as i64
    }

    open spec fn spec_times(self, rhs: i64) -> i64 {
        wrap(self * rhs, half_i64()) as i64
    }

    fn zero() -> (r: i64) {
        0
    }

    fn plus(self, rhs: i64) -> (r: i64) {
        proof {
            lemma_wrap_sum(self + rhs, half_i64());
        }
        self.wrapping_add(rhs)
    }

    fn minus(self, rhs: i64) -> (r: i64) {
        proof {
            lemma_wrap_sum(self - rhs, half_i64());
        }
        self.wrapping_sub(rhs)
    }

    fn times(self, rhs: i64) -> (r: i64) {
        self.wrapping_mul(rhs)
    }

    proof fn lemma_plus_commutes(a: i64, b: i64) {
    }

    proof fn lemma_plus_associates(a: i64, b: i64, c: i64) {
        lemma_wrap_range(a + b, half_i64());
        lemma_wrap_range(b + c, half_i64());
        lemma_plus_associates(a as int, b as int, c as int, half_i64());
    }

    proof fn lemma_plus_zero(a: i64) {
        lemma_wrap_small(a as int, half_i64());
    }

    proof fn lemma_plus_minus_cancels(a: i64, b: i64) {
        lemma_wrap_range(a + b, half_i64());
        lemma_plus_minus_cancels(a as int, b as int, half_i64());
    }

    proof fn lemma_times_associates(a: i64, b: i64, c: i64) {
        lemma_wrap_range(a * b, half_i64());
        lemma_wrap_range(b * c, half_i64());
        lemma_times_associates(a as int, b as int, c as int, half_i64());
    }

    proof fn lemma_times_distributes(a: i64, b: i64, c: i64) {
        lemma_wrap_range(a + b, half_i64());
        lemma_wrap_range(b + c, half_i64());
        lemma_wrap_range(a * b, half_i64());
        lemma_wrap_range(a * c, half_i64());
        lemma_wrap_range(b * c, half_i64());
        lemma_times_distributes_left(a as int, b as int, c as int, half_i64());
        lemma_times_distributes_right(a as int, b as int, c as int, half_i64());
    }

    proof fn lemma_times_zero(a: i64) {
        assert(a * 0 == 0) by (nonlinear_arith);
        assert(0 * a == 0) by (nonlinear_arith);
        lemma_wrap_small(0, half_i64());
    }

    proof fn lemma_times_one(a: i64) {
        assert(a * 1 == a) by (nonlinear_arith);
        assert(1 * a == a) by (nonlinear_arith);
        lemma_wrap_small(a as int, half_i64());
    }
}

impl Scalar for i32 {
    open spec fn spec_zero() -> i32 {
        0
    }

    open spec fn spec_one() -> i32 {
        1
    }

    open spec fn spec_plus(self, rhs: i32) -> i32 {
        wrap(self + rhs, half_i32()) as i32
    }

    open spec fn spec_minus(self, rhs: i32) -> i32 {
        wrap(self - rhs, half_i32()) as i32
    }

    open spec fn spec_times(self, rhs: i32) -> i32 {
        wrap(self * rhs, half_i32()) as i32
    }

    fn zero() -> (r: i32) {
        0
    }

    fn plus(self, rhs: i32) -> (r: i32) {
        proof {
            lemma_wrap_sum(self + rhs, half_i32());
        }
        self.wrapping_add(rhs)
    }

    fn minus(self, rhs: i32) -> (r: i32) {
        proof {
            lemma_wrap_sum(self - rhs, half_i32());
        }
        self.wrapping_sub(rhs)
    }

    fn times(self, rhs: i32) -> (r: i32) {
        self.wrapping_mul(rhs)
    }

    proof fn lemma_plus_commutes(a: i32, b: i32) {
    }

    proof fn lemma_plus_associates(a: i32, b: i32, c: i32) {
        lemma_wrap_range(a + b, half_i32());
        lemma_wrap_range(b + c, half_i32());
        lemma_plus_associates(a as int, b as int, c as int, half_i32());
    }

    proof fn lemma_plus_zero(a: i32) {
        lemma_wrap_small(a as int, half_i32());
    }

    proof fn lemma_plus_minus_cancels(a: i32, b: i32) {
        lemma_wrap_range(a + b, half_i32());
        lemma_plus_minus_cancels(a as int, b as int, half_i32());
    }

    proof fn lemma_times_associates(a: i32, b: i32, c: i32) {
        lemma_wrap_range(a * b, half_i32());
        lemma_wrap_range(b * c, half_i32());
        lemma_times_associates(a as int, b as int, c as int, half_i32());
    }

    proof fn lemma_times_distributes(a: i32, b: i32, c: i32) {
        lemma_wrap_range(a + b, half_i32());
        lemma_wrap_range(b + c, half_i32());
        lemma_wrap_range(a * b, half_i32());
        lemma_wrap_range(a * c, half_i32());
        lemma_wrap_range(b * c, half_i32());
        lemma_times_distributes_left(a as int, b as int, c as int, half_i32());
        lemma_times_distributes_right(a as int, b as int, c as int, half_i32());
    }

    proof fn lemma_times_zero(a: i32) {
        assert(a * 0 == 0) by (nonlinear_arith);
        assert(0 * a == 0) by (nonlinear_arith);
        lemma_wrap_small(0, half_i32());
    }

    proof fn lemma_times_one(a: i32) {
        assert(a * 1 == a) by (nonlinear_arith);
        assert(1 * a == a) by (nonlinear_arith);
        lemma_wrap_small(a as int, half_i32());
    }
}

} // verus!
