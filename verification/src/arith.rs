//! The arithmetic of the sample type, taken from `num_traits` and the
//! operators that `num_traits::Float` brings with it.
//!
//! Nothing in this file is proved: each function hands its arguments to the
//! sample type and states what is known of the result. Sums and quotients go
//! through here because vstd's contract for an operator on a type parameter
//! asks for a precondition that it leaves unstated for floating-point types.

use num_traits::{Float, NumCast, Zero};
use vstd::prelude::*;
use vstd::std_specs::ops::{add_ensures, div_ensures};

verus! {

/// Calls `num_traits::Zero::zero` for `T`. Nothing is claimed of the value.
#[verifier::external_body]
pub(crate) fn zero_sample<T: Float>() -> (zero: T) {
    <T as Zero>::zero()
}

/// Calls `num_traits::NumCast::from` for `T` on a window size. The call
/// answers `None` where `T` cannot represent the size; nothing is claimed of
/// when that is, nor of the value.
#[verifier::external_body]
pub(crate) fn sample_from_size<T: Float>(size: usize) -> (sample: Option<T>) {
    <T as NumCast>::from(size)
}

/// Computes `a + b` with the `core::ops::Add` of `T`. The contract relates
/// operands and result by vstd's `add_ensures`, as vstd does for the sums of
/// the primitive floating-point types; that relation is uninterpreted, so no
/// arithmetic fact is claimed.
#[verifier::external_body]
pub(crate) fn add_samples<T: Float>(a: T, b: T) -> (sum: T)
    ensures
        add_ensures::<T>(a, b, sum),
{
    a + b
}

/// Computes `a / b` with the `core::ops::Div` of `T`. The contract relates
/// operands and result by vstd's `div_ensures`, as vstd does for the quotients
/// of the primitive floating-point types; that relation is uninterpreted, so
/// no arithmetic fact is claimed. A floating-point division does not fail on
/// a zero divisor: it gives an infinity or a NaN.
#[verifier::external_body]
pub(crate) fn div_samples<T: Float>(a: T, b: T) -> (quotient: T)
    ensures
        div_ensures::<T>(a, b, quotient),
{
    a / b
}

} // verus!
