//! Arithmetic on values that stand for real numbers.
//!
//! Contracts say which operations are applied to which values. Here the values
//! are read as real numbers, and what the operations come to is said of those.

use vstd::prelude::*;

use crate::tensor::arithmetic::Arithmetic;

verus! {

/// A reading of values as real numbers.
#[verifier::reject_recursive_types(T)]
pub struct Reals<T> {
    /// Whether a value stands for a number.
    pub number: spec_fn(T) -> bool,
    /// The number that a value stands for.
    pub value: spec_fn(T) -> real,
    /// The exponential function.
    pub exponential: spec_fn(real) -> real,
    /// The largest number whose exponential a value can stand for.
    pub largest_exponent: real,
    /// A number to the power of another.
    pub power: spec_fn(real, real) -> real,
    pub sine: spec_fn(real) -> real,
    pub cosine: spec_fn(real) -> real,
    /// The number with given bits of a single-precision one.
    pub single: spec_fn(u32) -> real,
}

impl<T> Reals<T> {
    pub open spec fn is(self, value: T) -> bool {
        (self.number)(value)
    }

    pub open spec fn of(self, value: T) -> real {
        (self.value)(value)
    }

    /// All values stand for numbers.
    pub open spec fn all(self, values: Seq<T>) -> bool {
        forall|i: int| 0 <= i < values.len() ==> self.is(#[trigger] values[i])
    }

    pub open spec fn exp(self, x: real) -> real {
        (self.exponential)(x)
    }

    pub open spec fn pow(self, x: real, y: real) -> real {
        (self.power)(x, y)
    }

    pub open spec fn exponential_splits(self, x: real, y: real) -> bool {
        self.exp(x + y) == self.exp(x) * self.exp(y)
    }

    /// Exponentials are positive, and turn sums into products. Those of numbers
    /// that are not above zero can be stood for.
    pub open spec fn has_exponential(self) -> bool {
        &&& self.largest_exponent >= 0real
        &&& forall|x: real| #[trigger] self.exp(x) > 0real
        &&& forall|x: real, y: real| #[trigger] self.exponential_splits(x, y)
    }

    pub open spec fn power_splits(self, base: real, x: real, y: real) -> bool {
        base > 0real ==> self.pow(base, x + y) == self.pow(base, x) * self.pow(base, y)
    }

    /// Powers of positive numbers are positive, turn sums into products, and
    /// start with the number itself.
    pub open spec fn has_powers(self) -> bool {
        &&& forall|base: real, x: real| base > 0real ==> #[trigger] self.pow(base, x) > 0real
        &&& forall|base: real, x: real, y: real| #[trigger] self.power_splits(base, x, y)
        &&& forall|base: real| base > 0real ==> #[trigger] self.pow(base, 1real) == base
    }
}

/// A number that is an integer.
pub open spec fn equals(x: real, integer: int) -> bool {
    x == integer as real
}

/// A number without fraction.
pub open spec fn is_whole(x: real) -> bool {
    exists|k: int| #[trigger] equals(x, k)
}

/// The distance of a number from zero.
pub open spec fn magnitude(x: real) -> real {
    if x >= 0real {
        x
    } else {
        -x
    }
}

/// The sum of the first `count` terms.
pub open spec fn sum(term: spec_fn(int) -> real, count: nat) -> real
    decreases count,
{
    if count == 0 {
        0real
    } else {
        sum(term, (count - 1) as nat) + term(count - 1)
    }
}

/// A number multiplied with itself, `count` times in all.
pub open spec fn repeated(x: real, count: nat) -> real
    decreases count,
{
    if count == 0 {
        1real
    } else {
        repeated(x, (count - 1) as nat) * x
    }
}

/// The operations yield what they do on real numbers, wherever their operands
/// stand for numbers.
pub open spec fn exact<T, A: Arithmetic<T>>(arithmetic: &A, n: Reals<T>) -> bool {
    &&& exact_constants(arithmetic, n)
    &&& exact_operations(arithmetic, n)
    &&& exact_functions(arithmetic, n)
    &&& exact_tests(arithmetic, n)
}

/// Constants and conversions.
pub open spec fn exact_constants<T, A: Arithmetic<T>>(arithmetic: &A, n: Reals<T>) -> bool {
    &&& forall|r: T| #[trigger]
        call_ensures(A::zero, (arithmetic,), r) ==> n.is(r) && n.of(r) == 0real
    &&& forall|r: T| #[trigger]
        call_ensures(A::empty_sum, (arithmetic,), r) ==> n.is(r) && n.of(r) == 0real
    &&& forall|r: T| #[trigger]
        call_ensures(A::one, (arithmetic,), r) ==> n.is(r) && n.of(r) == 1real
    &&& forall|r: T| #[trigger] call_ensures(A::lowest, (arithmetic,), r) ==> !n.is(r)
    &&& forall|r: T| #[trigger] call_ensures(A::highest, (arithmetic,), r) ==> !n.is(r)
    &&& forall|count: usize, r: T| #[trigger]
        call_ensures(A::from_count, (arithmetic, count), r) ==> n.is(r) && n.of(r)
            == count as real
    &&& forall|integer: i32, r: T| #[trigger]
        call_ensures(A::from_integer, (arithmetic, integer), r) ==> n.is(r) && n.of(r)
            == integer as real
    &&& forall|bits: u32, r: T| #[trigger]
        call_ensures(A::from_bits, (arithmetic, bits), r) && (bits / 8_388_608) % 256 != 255
            ==> n.is(r) && n.of(r) == (n.single)(bits)
    &&& forall|x: T, count: u32| #[trigger]
        call_ensures(A::to_count, (arithmetic, x), count) && n.is(x) ==> is_nearest(
            n.of(x),
            count,
        )
}

/// `count` is the count nearest to a number, from zero to the largest.
pub open spec fn is_nearest(x: real, count: u32) -> bool {
    if x <= 0real {
        count == 0
    } else if x >= u32::MAX as real {
        count == u32::MAX
    } else {
        -1real <= 2real * (x - count as real) <= 1real
    }
}

/// Operations of elementary arithmetic.
pub open spec fn exact_operations<T, A: Arithmetic<T>>(arithmetic: &A, n: Reals<T>) -> bool {
    &&& forall|x: T, y: T, r: T| #[trigger]
        call_ensures(A::add, (arithmetic, x, y), r) && n.is(x) && n.is(y) ==> n.is(r) && n.of(r)
            == n.of(x) + n.of(y)
    &&& forall|x: T, y: T, r: T| #[trigger]
        call_ensures(A::subtract, (arithmetic, x, y), r) && n.is(x) && n.is(y) ==> n.is(r)
            && n.of(r) == n.of(x) - n.of(y)
    &&& forall|x: T, y: T, r: T| #[trigger]
        call_ensures(A::multiply, (arithmetic, x, y), r) && n.is(x) && n.is(y) ==> n.is(r)
            && n.of(r) == n.of(x) * n.of(y)
    &&& forall|x: T, y: T, r: T| #[trigger]
        call_ensures(A::divide, (arithmetic, x, y), r) && n.is(x) && n.is(y) && n.of(y) != 0real
            ==> n.is(r) && n.of(r) * n.of(y) == n.of(x)
    &&& forall|x: T, r: T| #[trigger]
        call_ensures(A::negate, (arithmetic, x), r) && n.is(x) ==> n.is(r) && n.of(r) == -n.of(x)
    &&& forall|x: T, r: T| #[trigger]
        call_ensures(A::absolute, (arithmetic, x), r) && n.is(x) ==> n.is(r) && n.of(r)
            == magnitude(n.of(x))
    &&& forall|x: T, r: T| #[trigger]
        call_ensures(A::round, (arithmetic, x), r) && n.is(x) ==> n.is(r) && is_whole(n.of(r))
            && -1real <= 2real * (n.of(r) - n.of(x)) <= 1real
    &&& forall|x: T, y: T, r: T| #[trigger]
        call_ensures(A::maximum, (arithmetic, x, y), r) && n.is(x) && n.is(y) ==> n.is(r)
            && n.of(r) == if n.of(x) >= n.of(y) {
            n.of(x)
        } else {
            n.of(y)
        }
    &&& forall|x: T, y: T, r: T| #[trigger]
        call_ensures(A::maximum, (arithmetic, x, y), r) && #[trigger] call_ensures(
            A::lowest,
            (arithmetic,),
            x,
        ) && n.is(y) ==> n.is(r) && n.of(r) == n.of(y)
    &&& forall|x: T, y: T, r: T| #[trigger]
        call_ensures(A::minimum, (arithmetic, x, y), r) && n.is(x) && n.is(y) ==> n.is(r)
            && n.of(r) == if n.of(x) <= n.of(y) {
            n.of(x)
        } else {
            n.of(y)
        }
    &&& forall|x: T, y: T, r: T| #[trigger]
        call_ensures(A::minimum, (arithmetic, x, y), r) && #[trigger] call_ensures(
            A::highest,
            (arithmetic,),
            x,
        ) && n.is(y) ==> n.is(r) && n.of(r) == n.of(y)
}

/// Functions of numbers.
pub open spec fn exact_functions<T, A: Arithmetic<T>>(arithmetic: &A, n: Reals<T>) -> bool {
    &&& forall|x: T, r: T| #[trigger]
        call_ensures(A::exponential, (arithmetic, x), r) && n.is(x) && n.of(x)
            <= n.largest_exponent ==> n.is(r) && n.of(r) == n.exp(n.of(x))
    &&& forall|x: T, r: T| #[trigger]
        call_ensures(A::square_root, (arithmetic, x), r) && n.is(x) && n.of(x) >= 0real ==> n.is(r)
            && n.of(r) >= 0real && n.of(r) * n.of(r) == n.of(x)
    &&& forall|x: T, r: T| #[trigger]
        call_ensures(A::reciprocal, (arithmetic, x), r) && n.is(x) && n.of(x) != 0real ==> n.is(r)
            && n.of(r) * n.of(x) == 1real
    &&& forall|x: T, y: T, r: T| #[trigger]
        call_ensures(A::power, (arithmetic, x, y), r) && n.is(x) && n.is(y) && n.of(x) > 0real
            ==> n.is(r) && n.of(r) == n.pow(n.of(x), n.of(y))
    &&& forall|x: T, r: (T, T)| #[trigger]
        call_ensures(A::sine_cosine, (arithmetic, x), r) && n.is(x) ==> n.is(r.0) && n.is(r.1)
            && n.of(r.0) == (n.sine)(n.of(x)) && n.of(r.1) == (n.cosine)(n.of(x))
}

/// Tests of numbers.
pub open spec fn exact_tests<T, A: Arithmetic<T>>(arithmetic: &A, n: Reals<T>) -> bool {
    &&& forall|x: T, answer: bool| #[trigger]
        call_ensures(A::is_finite, (arithmetic, x), answer) ==> answer == n.is(x)
    &&& forall|x: T, answer: bool| #[trigger]
        call_ensures(A::is_negative, (arithmetic, x), answer) && n.is(x) ==> answer == (n.of(x)
            < 0real)
    &&& forall|x: T, answer: bool| #[trigger]
        call_ensures(A::is_positive, (arithmetic, x), answer) && n.is(x) ==> answer == (n.of(x)
            > 0real)
    &&& forall|x: T, answer: bool| #[trigger]
        call_ensures(A::is_zero, (arithmetic, x), answer) && n.is(x) ==> answer == (n.of(x)
            == 0real)
    &&& forall|x: T, y: T, answer: bool| #[trigger]
        call_ensures(A::exceeds, (arithmetic, x, y), answer) && n.is(x) && n.is(y) ==> answer == (
        n.of(x) > n.of(y))
}

/// Equal terms have equal sums.
pub proof fn lemma_same_sum(f: spec_fn(int) -> real, g: spec_fn(int) -> real, count: nat)
    requires
        forall|i: int| 0 <= i < count ==> #[trigger] f(i) == g(i),
    ensures
        sum(f, count) == sum(g, count),
    decreases count,
{
    if count > 0 {
        lemma_same_sum(f, g, (count - 1) as nat);
    }
}

/// A factor can be taken out of a sum.
pub proof fn lemma_sum_scaled(
    f: spec_fn(int) -> real,
    g: spec_fn(int) -> real,
    factor: real,
    count: nat,
)
    requires
        forall|i: int| 0 <= i < count ==> #[trigger] g(i) == f(i) * factor,
    ensures
        sum(g, count) == sum(f, count) * factor,
    decreases count,
{
    if count > 0 {
        lemma_sum_scaled(f, g, factor, (count - 1) as nat);
        let before = sum(f, (count - 1) as nat);
        let last = f(count - 1);
        assert((before + last) * factor == before * factor + last * factor) by (nonlinear_arith);
    } else {
        assert(0real * factor == 0real) by (nonlinear_arith);
    }
}

/// A sum of positive terms is positive.
pub proof fn lemma_sum_positive(f: spec_fn(int) -> real, count: nat)
    requires
        forall|i: int| 0 <= i < count ==> #[trigger] f(i) > 0real,
    ensures
        count > 0 ==> sum(f, count) > 0real,
        sum(f, count) >= 0real,
    decreases count,
{
    if count > 0 {
        lemma_sum_positive(f, (count - 1) as nat);
        assert(f(count - 1) > 0real);
    }
}

} // verus!
