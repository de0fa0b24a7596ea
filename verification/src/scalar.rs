//! The arithmetic that vectors and matrices are generic over.
//!
//! A [`Scalar`] is an element of a vector: it can be added, multiplied and
//! conjugated, and has an absolute value in a companion [`RealScalar`] type,
//! which in turn can be added, compared and has a square root. Every operation
//! comes with a specification function of the same meaning, so that what a
//! vector operation returns can be stated exactly, whatever the scalar type.
//!
//! The library itself implements both traits for `i64`, with arithmetic that
//! wraps around on overflow.
use vstd::prelude::*;

verus! {

/// A real number: the type of absolute values and norms.
pub trait RealScalar: Copy + Sized {
    /// The additive identity.
    spec fn zero_spec() -> Self;

    /// A value that no other exceeds from below: the maximum of an empty set.
    spec fn neg_infinity_spec() -> Self;

    /// The sum of two values.
    spec fn add_spec(self, rhs: Self) -> Self;

    /// The larger of two values.
    spec fn max_spec(self, rhs: Self) -> Self;

    /// The square root of a value.
    spec fn sqrt_spec(self) -> Self;

    fn zero() -> (r: Self)
        ensures
            r == Self::zero_spec(),
    ;

    fn neg_infinity() -> (r: Self)
        ensures
            r == Self::neg_infinity_spec(),
    ;

    fn add(self, rhs: Self) -> (r: Self)
        ensures
            r == self.add_spec(rhs),
    ;

    fn max(self, rhs: Self) -> (r: Self)
        ensures
            r == self.max_spec(rhs),
    ;

    fn sqrt(self) -> (r: Self)
        ensures
            r == self.sqrt_spec(),
    ;
}

/// An element of a vector, real or complex.
pub trait Scalar: Copy + Sized {
    /// The type of absolute values of this scalar.
    type Real: RealScalar;

    /// The additive identity.
    spec fn zero_spec() -> Self;

    /// The multiplicative identity.
    spec fn one_spec() -> Self;

    /// The sum of two values.
    spec fn add_spec(self, rhs: Self) -> Self;

    /// The product of two values.
    spec fn mul_spec(self, rhs: Self) -> Self;

    /// The complex conjugate; a real scalar is its own conjugate.
    spec fn conj_spec(self) -> Self;

    /// The absolute value.
    spec fn abs_spec(self) -> Self::Real;

    /// The square of the absolute value.
    spec fn square_spec(self) -> Self::Real;

    /// Whether the value compares equal to zero.
    spec fn is_zero_spec(self) -> bool;

    /// Whether the value compares equal to one.
    spec fn is_one_spec(self) -> bool;

    fn zero() -> (r: Self)
        ensures
            r == Self::zero_spec(),
    ;

    fn one() -> (r: Self)
        ensures
            r == Self::one_spec(),
    ;

    fn add(self, rhs: Self) -> (r: Self)
        ensures
            r == self.add_spec(rhs),
    ;

    fn mul(self, rhs: Self) -> (r: Self)
        ensures
            r == self.mul_spec(rhs),
    ;

    fn conj(self) -> (r: Self)
        ensures
            r == self.conj_spec(),
    ;

    fn abs(self) -> (r: Self::Real)
        ensures
            r == self.abs_spec(),
    ;

    fn square(self) -> (r: Self::Real)
        ensures
            r == self.square_spec(),
    ;

    fn is_zero(self) -> (r: bool)
        ensures
            r == self.is_zero_spec(),
    ;

    fn is_one(self) -> (r: bool)
        ensures
            r == self.is_one_spec(),
    ;
}

/// Whether `root` is the largest integer whose square does not exceed `value`.
pub open spec fn is_floor_sqrt(value: int, root: int) -> bool {
    0 <= root && root * root <= value < (root + 1) * (root + 1)
}

/// The largest integer whose square does not exceed `value`; 0 for a negative `value`.
pub open spec fn floor_sqrt(value: int) -> int {
    if value < 0 {
        0
    } else {
        choose|root: int| is_floor_sqrt(value, root)
    }
}

/// A value has at most one floor square root.
pub proof fn lemma_floor_sqrt_unique(value: int, a: int, b: int)
    requires
        is_floor_sqrt(value, a),
        is_floor_sqrt(value, b),
    ensures
        a == b,
{
    if a < b {
        assert((a + 1) * (a + 1) <= b * b) by (nonlinear_arith)
            requires
                0 <= a + 1 <= b,
        ;
    }
    if b < a {
        assert((b + 1) * (b + 1) <= a * a) by (nonlinear_arith)
            requires
                0 <= b + 1 <= a,
        ;
    }
}

/// The floor square root of a value that fits in 63 bits, by bisection.
fn integer_sqrt(value: i64) -> (root: i64)
    requires
        value >= 0,
    ensures
        is_floor_sqrt(value as int, root as int),
        root == floor_sqrt(value as int),
{
    // The square of 3037000499 is the largest square that fits in an i64.
    let mut low: i64 = 0;
    let mut high: i64 = 3037000500;
    while high - low > 1
        invariant
            0 <= low < high <= 3037000500,
            low * low <= value < high * high,
        decreases high - low,
    {
        let middle: i64 = low + (high - low) / 2;
        assert(0 <= middle * middle <= 3037000499int * 3037000499int) by (nonlinear_arith)
            requires
                0 <= middle <= 3037000499,
        ;
        if middle * middle <= value {
            low = middle;
        } else {
            high = middle;
        }
    }
    proof {
        lemma_floor_sqrt_unique(value as int, low as int, floor_sqrt(value as int));
    }
    low
}

impl RealScalar for i64 {
    open spec fn zero_spec() -> Self {
        0i64
    }

    /// The least `i64` stands for negative infinity.
    open spec fn neg_infinity_spec() -> Self {
        i64::MIN
    }

    open spec fn add_spec(self, rhs: Self) -> Self {
        vstd::wrapping::i64_specs::wrapping_add(self, rhs)
    }

    open spec fn max_spec(self, rhs: Self) -> Self {
        if self >= rhs {
            self
        } else {
            rhs
        }
    }

    /// The floor of the square root; 0 for a negative value.
    open spec fn sqrt_spec(self) -> Self {
        floor_sqrt(self as int) as i64
    }

    fn zero() -> (r: Self) {
        0i64
    }

    fn neg_infinity() -> (r: Self) {
        i64::MIN
    }

    fn add(self, rhs: Self) -> (r: Self) {
        self.wrapping_add(rhs)
    }

    fn max(self, rhs: Self) -> (r: Self) {
        if self >= rhs {
            self
        } else {
            rhs
        }
    }

    fn sqrt(self) -> (r: Self) {
        if self < 0 {
            0
        } else {
            integer_sqrt(self)
        }
    }
}

impl Scalar for i64 {
    type Real = i64;

    open spec fn zero_spec() -> Self {
        0i64
    }

    open spec fn one_spec() -> Self {
        1i64
    }

    open spec fn add_spec(self, rhs: Self) -> Self {
        vstd::wrapping::i64_specs::wrapping_add(self, rhs)
    }

    open spec fn mul_spec(self, rhs: Self) -> Self {
        vstd::wrapping::i64_specs::wrapping_mul(self, rhs)
    }

    open spec fn conj_spec(self) -> Self {
        self
    }

    /// The absolute value; the least `i64`, which has none, stays as it is.
    open spec fn abs_spec(self) -> i64 {
        if self == i64::MIN || self >= 0 {
            self
        } else {
            (-self) as i64
        }
    }

    open spec fn square_spec(self) -> i64 {
        vstd::wrapping::i64_specs::wrapping_mul(self, self)
    }

    open spec fn is_zero_spec(self) -> bool {
        self == 0
    }

    open spec fn is_one_spec(self) -> bool {
        self == 1
    }

    fn zero() -> (r: Self) {
        0i64
    }

    fn one() -> (r: Self) {
        1i64
    }

    fn add(self, rhs: Self) -> (r: Self) {
        self.wrapping_add(rhs)
    }

    fn mul(self, rhs: Self) -> (r: Self) {
        self.wrapping_mul(rhs)
    }

    fn conj(self) -> (r: Self) {
        self
    }

    fn abs(self) -> (r: i64) {
        if self == i64::MIN || self >= 0 {
            self
        } else {
            -self
        }
    }

    fn square(self) -> (r: i64) {
        self.wrapping_mul(self)
    }

    fn is_zero(self) -> (r: bool) {
        self == 0
    }

    fn is_one(self) -> (r: bool) {
        self == 1
    }
}

} // verus!
