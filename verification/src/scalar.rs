//! The scalar that matrices hold, and the zero threshold.

use vstd::prelude::*;

verus! {

/// The arithmetic that the kernels ask of a matrix entry.
///
/// Every operation is a function of its operands alone: the executable
/// method returns exactly what the specification function of the same name
/// gives. The kernels state their results over these specification
/// functions, so a contract says which operations were applied to which
/// entries and in which order, and nothing about rounding.
///
/// An implementation whose arithmetic the verifier cannot read keeps the
/// specification functions as they stand here: each operation then has a
/// value of which nothing more is known.
pub trait Scalar: Copy {
    /// The scalar that stands for the integer `n`.
    open spec fn spec_from_int(n: i64) -> Self {
        arbitrary()
    }

    /// `self + rhs`.
    open spec fn spec_plus(self, rhs: Self) -> Self {
        arbitrary()
    }

    /// `self - rhs`.
    open spec fn spec_minus(self, rhs: Self) -> Self {
        arbitrary()
    }

    /// `self * rhs`.
    open spec fn spec_times(self, rhs: Self) -> Self {
        arbitrary()
    }

    /// `self / rhs`.
    open spec fn spec_over(self, rhs: Self) -> Self {
        arbitrary()
    }

    /// The square root of `self`.
    open spec fn spec_sqrt(self) -> Self {
        arbitrary()
    }

    /// The sign of `self` as a scalar: one, or minus one.
    open spec fn spec_signum(self) -> Self {
        arbitrary()
    }

    /// A key that orders scalars by absolute value: `a` is smaller in
    /// magnitude than `b` exactly when the key of `a` is below that of `b`.
    open spec fn spec_magnitude(self) -> u64 {
        arbitrary()
    }

    /// The scalar that stands for the integer `n`.
    fn from_int(n: i64) -> (r: Self)
        ensures
            r == Self::spec_from_int(n),
    ;

    /// `self + rhs`.
    fn plus(self, rhs: Self) -> (r: Self)
        ensures
            r == self.spec_plus(rhs),
    ;

    /// `self - rhs`.
    fn minus(self, rhs: Self) -> (r: Self)
        ensures
            r == self.spec_minus(rhs),
    ;

    /// `self * rhs`.
    fn times(self, rhs: Self) -> (r: Self)
        ensures
            r == self.spec_times(rhs),
    ;

    /// `self / rhs`. Every divisor is accepted; what a division by zero
    /// gives is the implementation's to say.
    fn over(self, rhs: Self) -> (r: Self)
        ensures
            r == self.spec_over(rhs),
    ;

    /// The square root of `self`.
    fn sqrt(self) -> (r: Self)
        ensures
            r == self.spec_sqrt(),
    ;

    /// The sign of `self` as a scalar.
    fn signum(self) -> (r: Self)
        ensures
            r == self.spec_signum(),
    ;

    /// The key that orders scalars by absolute value.
    fn magnitude(self) -> (k: u64)
        ensures
            k == self.spec_magnitude(),
    ;
}

/// The zero threshold is one over this integer.
pub const EPSILON_INVERSE: i64 = 10_000_000_000;

/// The scalar zero.
pub open spec fn spec_zero<T: Scalar>() -> T {
    T::spec_from_int(0)
}

/// The scalar one.
pub open spec fn spec_one<T: Scalar>() -> T {
    T::spec_from_int(1)
}

/// The zero threshold shared by every kernel: the scalar one over ten to the tenth.
pub open spec fn spec_epsilon<T: Scalar>() -> T {
    T::spec_from_int(1).spec_over(T::spec_from_int(EPSILON_INVERSE))
}

/// Whether `x` is larger in magnitude than the zero threshold.
pub open spec fn exceeds_epsilon<T: Scalar>(x: T) -> bool {
    x.spec_magnitude() > spec_epsilon::<T>().spec_magnitude()
}

/// Whether `x` is smaller in magnitude than the zero threshold.
pub open spec fn below_epsilon<T: Scalar>(x: T) -> bool {
    x.spec_magnitude() < spec_epsilon::<T>().spec_magnitude()
}

/// The absolute value of `x`: `x` times its sign.
pub open spec fn spec_abs<T: Scalar>(x: T) -> T {
    x.spec_times(x.spec_signum())
}

/// The scalar zero.
pub fn zero<T: Scalar>() -> (r: T)
    ensures
        r == spec_zero::<T>(),
{
    T::from_int(0)
}

/// The scalar one.
pub fn one<T: Scalar>() -> (r: T)
    ensures
        r == spec_one::<T>(),
{
    T::from_int(1)
}

/// The zero threshold shared by every kernel.
pub fn epsilon<T: Scalar>() -> (r: T)
    ensures
        r == spec_epsilon::<T>(),
{
    T::from_int(1).over(T::from_int(EPSILON_INVERSE))
}

/// The absolute value of `x`.
pub fn abs<T: Scalar>(x: T) -> (r: T)
    ensures
        r == spec_abs(x),
{
    x.times(x.signum())
}

} // verus!
