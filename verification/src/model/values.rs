//! What stored weights come to, if values stand for real numbers.

use vstd::prelude::*;

use crate::model::term;
use crate::model::term::Term;
use crate::tensor::arithmetic::Arithmetic;
use crate::tensor::reals;
use crate::tensor::reals::Reals;

verus! {

/// Whether the bits of a single-precision number stand for a finite one.
pub open spec fn finite_bits(bits: u32) -> bool {
    (bits / 8_388_608) % 256 != 255
}

/// The scales and minimums of a weight are finite.
pub open spec fn finite_term(term: Term) -> bool {
    match term {
        Term::Plain { bits } => finite_bits(bits),
        Term::Centered { scale, .. } => finite_bits(scale),
        Term::Scaled { scale, .. } => finite_bits(scale),
        Term::Raised { scale, minimum, .. } => finite_bits(scale) && finite_bits(minimum),
        Term::Grouped { scale, .. } => finite_bits(scale),
        Term::GroupedLess { scale, minimum, .. } => finite_bits(scale) && finite_bits(minimum),
    }
}

/// The number that a weight stands for.
pub open spec fn term_number<T>(n: Reals<T>, term: Term) -> real {
    match term {
        Term::Plain { bits } => (n.single)(bits),
        Term::Centered { quantized, scale } => quantized as real * (n.single)(scale),
        Term::Scaled { scale, quantized } => quantized as real * (n.single)(scale),
        Term::Raised { scale, quantized, minimum } => quantized as real * (n.single)(scale)
            + (n.single)(minimum),
        Term::Grouped { scale, group, quantized } => (quantized * group) as real * (n.single)(
            scale,
        ),
        Term::GroupedLess { scale, group, quantized, minimum, group_minimum } => (quantized
            * group) as real * (n.single)(scale) - group_minimum as real * (n.single)(minimum),
    }
}

proof fn lemma_scaled<T, A: Arithmetic<T>>(
    arithmetic: &A,
    n: Reals<T>,
    scale: u32,
    integer: i32,
    value: T,
)
    requires
        reals::exact(arithmetic, n),
        finite_bits(scale),
        term::scaled(arithmetic, scale, integer, value),
    ensures
        n.is(value),
        n.of(value) == integer as real * (n.single)(scale),
{
    let s = (n.single)(scale);
    let i = integer as real;
    assert(s * i == i * s) by (nonlinear_arith);
}

proof fn lemma_grouped<T, A: Arithmetic<T>>(
    arithmetic: &A,
    n: Reals<T>,
    scale: u32,
    group: i32,
    integer: i32,
    value: T,
)
    requires
        reals::exact(arithmetic, n),
        finite_bits(scale),
        term::grouped(arithmetic, scale, group, integer, value),
    ensures
        n.is(value),
        n.of(value) == (integer * group) as real * (n.single)(scale),
{
    let (s, i) = choose|s: T, i: T|
        {
            &&& term::scaled(arithmetic, scale, group, s)
            &&& call_ensures(A::from_integer, (arithmetic, integer), i)
            &&& #[trigger] call_ensures(A::multiply, (arithmetic, s, i), value)
        };
    lemma_scaled(arithmetic, n, scale, group, s);
    let x = (n.single)(scale);
    let g = group as real;
    let q = integer as real;
    lemma_product_of_integers(integer as int, group as int);
    assert((g * x) * q == (q * g) * x) by (nonlinear_arith);
}

proof fn lemma_product_of_integers(a: int, b: int)
    ensures
        (a * b) as real == a as real * b as real,
{
    assert((a * b) as real == a as real * b as real) by (nonlinear_arith);
}

/// A weight whose scales are finite is decoded to the number that it stands for:
/// the integers of the weight and of its group, times the scale, and with the
/// minimum added or taken off.
pub proof fn law_weights_are_decoded_to_their_numbers<T, A: Arithmetic<T>>(
    arithmetic: &A,
    n: Reals<T>,
    term: Term,
    value: T,
)
    requires
        reals::exact(arithmetic, n),
        finite_term(term),
        term::term_value(arithmetic, term, value),
    ensures
        n.is(value),
        n.of(value) == term_number(n, term),
{
    reveal(term::term_value);
    match term {
        Term::Plain { bits } => {},
        Term::Centered { quantized, scale } => {},
        Term::Scaled { scale, quantized } => {
            lemma_scaled(arithmetic, n, scale, quantized, value);
        },
        Term::Raised { scale, quantized, minimum } => {
            let (p, m) = choose|p: T, m: T|
                {
                    &&& term::scaled(arithmetic, scale, quantized, p)
                    &&& call_ensures(A::from_bits, (arithmetic, minimum), m)
                    &&& #[trigger] call_ensures(A::add, (arithmetic, p, m), value)
                };
            lemma_scaled(arithmetic, n, scale, quantized, p);
        },
        Term::Grouped { scale, group, quantized } => {
            lemma_grouped(arithmetic, n, scale, group, quantized, value);
        },
        Term::GroupedLess { scale, group, quantized, minimum, group_minimum } => {
            let (p, m) = choose|p: T, m: T|
                {
                    &&& term::grouped(arithmetic, scale, group, quantized, p)
                    &&& term::scaled(arithmetic, minimum, group_minimum, m)
                    &&& #[trigger] call_ensures(A::subtract, (arithmetic, p, m), value)
                };
            lemma_grouped(arithmetic, n, scale, group, quantized, p);
            lemma_scaled(arithmetic, n, minimum, group_minimum, m);
        },
    }
}

} // verus!
