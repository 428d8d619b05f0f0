//! The operations that tensors need of their values.

use vstd::prelude::*;

verus! {

/// Operations on values of type `T`.
///
/// Nothing is asked of an implementation: contracts say which operations are
/// applied to which values, and leave open what they yield.
pub trait Arithmetic<T> {
    /// Zero, where products are accumulated.
    fn zero(&self) -> T;

    /// Where a sum starts.
    fn empty_sum(&self) -> T;

    /// One.
    fn one(&self) -> T;

    /// A value below all others.
    fn lowest(&self) -> T;

    /// A value above all others.
    fn highest(&self) -> T;

    /// A count as a value.
    fn from_count(&self, count: usize) -> T;

    /// A small integer as a value.
    fn from_integer(&self, value: i32) -> T;

    /// The value with given bits of a 32-bit floating-point number.
    fn from_bits(&self, bits: u32) -> T;

    /// The nearest count, from zero to the largest.
    fn to_count(&self, value: T) -> u32;

    fn add(&self, left: T, right: T) -> T;

    fn subtract(&self, left: T, right: T) -> T;

    fn multiply(&self, left: T, right: T) -> T;

    fn divide(&self, left: T, right: T) -> T;

    fn negate(&self, value: T) -> T;

    fn absolute(&self, value: T) -> T;

    fn round(&self, value: T) -> T;

    fn maximum(&self, left: T, right: T) -> T;

    fn minimum(&self, left: T, right: T) -> T;

    fn exponential(&self, value: T) -> T;

    fn square_root(&self, value: T) -> T;

    fn reciprocal(&self, value: T) -> T;

    fn power(&self, base: T, exponent: T) -> T;

    /// The sine and the cosine of an angle.
    fn sine_cosine(&self, angle: T) -> (T, T);

    fn is_finite(&self, value: T) -> bool;

    fn is_negative(&self, value: T) -> bool;

    fn is_positive(&self, value: T) -> bool;

    fn is_zero(&self, value: T) -> bool;

    /// Whether `left` is greater than `right`.
    fn exceeds(&self, left: T, right: T) -> bool;
}

} // verus!
