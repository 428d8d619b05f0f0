//! The stored form of a single weight, and the value that it stands for.

use vstd::prelude::*;

use crate::tensor::arithmetic::Arithmetic;

verus! {

/// A weight as it is stored: small integers, and scales as the bits of
/// single-precision numbers.
#[derive(Clone, Copy)]
pub enum Term {
    /// A number by itself.
    Plain { bits: u32 },
    /// An integer times a scale.
    Centered { quantized: i32, scale: u32 },
    /// A scale times an integer.
    Scaled { scale: u32, quantized: i32 },
    /// A scale times an integer, plus a minimum.
    Raised { scale: u32, quantized: i32, minimum: u32 },
    /// A scale times that of a group, times an integer.
    Grouped { scale: u32, group: i32, quantized: i32 },
    /// The same, less a minimum times that of the group.
    GroupedLess { scale: u32, group: i32, quantized: i32, minimum: u32, group_minimum: i32 },
}

/// `value` is a scale times an integer.
pub open spec fn scaled<T, A: Arithmetic<T>>(
    arithmetic: &A,
    scale: u32,
    integer: i32,
    value: T,
) -> bool {
    exists|s: T, i: T|
        {
            &&& call_ensures(A::from_bits, (arithmetic, scale), s)
            &&& call_ensures(A::from_integer, (arithmetic, integer), i)
            &&& #[trigger] call_ensures(A::multiply, (arithmetic, s, i), value)
        }
}

/// `value` is a scale times that of a group, times an integer.
pub open spec fn grouped<T, A: Arithmetic<T>>(
    arithmetic: &A,
    scale: u32,
    group: i32,
    integer: i32,
    value: T,
) -> bool {
    exists|s: T, i: T|
        {
            &&& scaled(arithmetic, scale, group, s)
            &&& call_ensures(A::from_integer, (arithmetic, integer), i)
            &&& #[trigger] call_ensures(A::multiply, (arithmetic, s, i), value)
        }
}

/// `value` is what a stored weight stands for.
#[verifier::opaque]
pub open spec fn term_value<T, A: Arithmetic<T>>(arithmetic: &A, term: Term, value: T) -> bool {
    match term {
        Term::Plain { bits } => call_ensures(A::from_bits, (arithmetic, bits), value),
        Term::Centered { quantized, scale } => exists|i: T, s: T|
            {
                &&& call_ensures(A::from_integer, (arithmetic, quantized), i)
                &&& call_ensures(A::from_bits, (arithmetic, scale), s)
                &&& #[trigger] call_ensures(A::multiply, (arithmetic, i, s), value)
            },
        Term::Scaled { scale, quantized } => scaled(arithmetic, scale, quantized, value),
        Term::Raised { scale, quantized, minimum } => exists|p: T, m: T|
            {
                &&& scaled(arithmetic, scale, quantized, p)
                &&& call_ensures(A::from_bits, (arithmetic, minimum), m)
                &&& #[trigger] call_ensures(A::add, (arithmetic, p, m), value)
            },
        Term::Grouped { scale, group, quantized } => grouped(
            arithmetic,
            scale,
            group,
            quantized,
            value,
        ),
        Term::GroupedLess { scale, group, quantized, minimum, group_minimum } => exists|p: T, m: T|
            {
                &&& grouped(arithmetic, scale, group, quantized, p)
                &&& scaled(arithmetic, minimum, group_minimum, m)
                &&& #[trigger] call_ensures(A::subtract, (arithmetic, p, m), value)
            },
    }
}

fn multiply_scale<T: Copy, A: Arithmetic<T>>(arithmetic: &A, scale: u32, integer: i32) -> (value:
    T)
    ensures
        scaled(arithmetic, scale, integer, value),
{
    let s = arithmetic.from_bits(scale);
    let i = arithmetic.from_integer(integer);
    arithmetic.multiply(s, i)
}

fn multiply_group<T: Copy, A: Arithmetic<T>>(
    arithmetic: &A,
    scale: u32,
    group: i32,
    integer: i32,
) -> (value: T)
    ensures
        grouped(arithmetic, scale, group, integer, value),
{
    let s = multiply_scale(arithmetic, scale, group);
    let i = arithmetic.from_integer(integer);
    arithmetic.multiply(s, i)
}

/// Computes what a stored weight stands for.
pub(crate) fn evaluate<T: Copy, A: Arithmetic<T>>(arithmetic: &A, term: Term) -> (value: T)
    ensures
        term_value(arithmetic, term, value),
{
    reveal(term_value);
    match term {
        Term::Plain { bits } => arithmetic.from_bits(bits),
        Term::Centered { quantized, scale } => {
            let i = arithmetic.from_integer(quantized);
            let s = arithmetic.from_bits(scale);
            arithmetic.multiply(i, s)
        },
        Term::Scaled { scale, quantized } => multiply_scale(arithmetic, scale, quantized),
        Term::Raised { scale, quantized, minimum } => {
            let p = multiply_scale(arithmetic, scale, quantized);
            let m = arithmetic.from_bits(minimum);
            arithmetic.add(p, m)
        },
        Term::Grouped { scale, group, quantized } => multiply_group(
            arithmetic,
            scale,
            group,
            quantized,
        ),
        Term::GroupedLess { scale, group, quantized, minimum, group_minimum } => {
            let p = multiply_group(arithmetic, scale, group, quantized);
            let m = multiply_scale(arithmetic, minimum, group_minimum);
            arithmetic.subtract(p, m)
        },
    }
}

} // verus!
