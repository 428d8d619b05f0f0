//! Operations that treat every element by itself.

use vstd::prelude::*;

use crate::tensor::arithmetic::Arithmetic;
use crate::tensor::dense;
use crate::tensor::dense::{Contents, Tensor};
use crate::tensor::error::{TensorError, TensorFault};

verus! {

/// `data` are the sums of the values at equal places.
pub open spec fn sums<T, A: Arithmetic<T>>(
    arithmetic: &A,
    left: Seq<T>,
    right: Seq<T>,
    data: Seq<T>,
) -> bool {
    &&& data.len() == left.len()
    &&& forall|i: int|
        0 <= i < data.len() ==> call_ensures(
            A::add,
            (arithmetic, left[i], right[i]),
            #[trigger] data[i],
        )
}

/// `data` are the products of the values at equal places.
pub open spec fn products<T, A: Arithmetic<T>>(
    arithmetic: &A,
    left: Seq<T>,
    right: Seq<T>,
    data: Seq<T>,
) -> bool {
    &&& data.len() == left.len()
    &&& forall|i: int|
        0 <= i < data.len() ==> call_ensures(
            A::multiply,
            (arithmetic, left[i], right[i]),
            #[trigger] data[i],
        )
}

/// `data` are the values times a factor.
pub open spec fn multiples<T, A: Arithmetic<T>>(
    arithmetic: &A,
    values: Seq<T>,
    factor: T,
    data: Seq<T>,
) -> bool {
    &&& data.len() == values.len()
    &&& forall|i: int|
        0 <= i < data.len() ==> call_ensures(
            A::multiply,
            (arithmetic, values[i], factor),
            #[trigger] data[i],
        )
}

/// `result` is the value divided by one plus the exponential of its opposite.
pub open spec fn silu_of<T, A: Arithmetic<T>>(arithmetic: &A, value: T, result: T) -> bool {
    exists|opposite: T|
        {
            &&& #[trigger] call_ensures(A::negate, (arithmetic, value), opposite)
            &&& exists|power: T|
                {
                    &&& #[trigger] call_ensures(A::exponential, (arithmetic, opposite), power)
                    &&& exists|one: T|
                        {
                            &&& #[trigger] call_ensures(A::one, (arithmetic,), one)
                            &&& exists|divisor: T|
                                {
                                    &&& #[trigger] call_ensures(
                                        A::add,
                                        (arithmetic, one, power),
                                        divisor,
                                    )
                                    &&& call_ensures(
                                        A::divide,
                                        (arithmetic, value, divisor),
                                        result,
                                    )
                                }
                        }
                }
        }
}

/// `data` are the activations of the values.
pub open spec fn activations<T, A: Arithmetic<T>>(
    arithmetic: &A,
    values: Seq<T>,
    data: Seq<T>,
) -> bool {
    &&& data.len() == values.len()
    &&& forall|i: int| 0 <= i < data.len() ==> silu_of(arithmetic, values[i], #[trigger] data[i])
}

impl<T: Copy> Tensor<T> {
    /// Adds two tensors with identical shapes.
    pub fn add<A: Arithmetic<T>>(&self, rhs: &Self, arithmetic: &A) -> (result: Result<
        Self,
        TensorError,
    >)
        ensures
            if self@.shape != rhs@.shape {
                dense::answer_of(result) == Err::<Contents<T>, TensorFault>(
                    TensorFault::ShapeMismatch { left: self@.shape, right: rhs@.shape },
                )
            } else {
                exists|data: Seq<T>| #[trigger]
                    sums(arithmetic, self@.data, rhs@.data, data) && dense::checked(
                        arithmetic,
                        self@.shape,
                        data,
                        "add"@,
                        dense::answer_of(result),
                    )
            },
    {
        let function = |left: T, right: T| -> (sum: T)
            ensures
                call_ensures(A::add, (arithmetic, left, right), sum),
            { arithmetic.add(left, right) };
        let result = self.binary_op(rhs, "add", function, arithmetic);
        proof {
            if self@.shape == rhs@.shape {
                let data = choose|data: Seq<T>| #[trigger]
                    combined(function, self@.data, rhs@.data, data) && dense::checked(
                        arithmetic,
                        self@.shape,
                        data,
                        "add"@,
                        dense::answer_of(result),
                    );
                assert(sums(arithmetic, self@.data, rhs@.data, data));
            }
        }
        result
    }

    /// Multiplies two tensors element by element.
    pub fn mul<A: Arithmetic<T>>(&self, rhs: &Self, arithmetic: &A) -> (result: Result<
        Self,
        TensorError,
    >)
        ensures
            if self@.shape != rhs@.shape {
                dense::answer_of(result) == Err::<Contents<T>, TensorFault>(
                    TensorFault::ShapeMismatch { left: self@.shape, right: rhs@.shape },
                )
            } else {
                exists|data: Seq<T>| #[trigger]
                    products(arithmetic, self@.data, rhs@.data, data) && dense::checked(
                        arithmetic,
                        self@.shape,
                        data,
                        "mul"@,
                        dense::answer_of(result),
                    )
            },
    {
        let function = |left: T, right: T| -> (product: T)
            ensures
                call_ensures(A::multiply, (arithmetic, left, right), product),
            { arithmetic.multiply(left, right) };
        let result = self.binary_op(rhs, "mul", function, arithmetic);
        proof {
            if self@.shape == rhs@.shape {
                let data = choose|data: Seq<T>| #[trigger]
                    combined(function, self@.data, rhs@.data, data) && dense::checked(
                        arithmetic,
                        self@.shape,
                        data,
                        "mul"@,
                        dense::answer_of(result),
                    );
                assert(products(arithmetic, self@.data, rhs@.data, data));
            }
        }
        result
    }

    /// Multiplies every value by one scalar.
    pub fn scale<A: Arithmetic<T>>(&self, factor: T, arithmetic: &A) -> (result: Result<
        Self,
        TensorError,
    >)
        ensures
            exists|data: Seq<T>| #[trigger]
                multiples(arithmetic, self@.data, factor, data) && dense::checked(
                    arithmetic,
                    self@.shape,
                    data,
                    "scale"@,
                    dense::answer_of(result),
                ),
    {
        let values = self.values();
        let mut data: Vec<T> = Vec::new();
        let mut i: usize = 0;
        while i < values.len()
            invariant
                i <= values@.len(),
                multiples(arithmetic, values@.take(i as int), factor, data@),
            decreases values@.len() - i,
        {
            let value = arithmetic.multiply(values[i], factor);
            data.push(value);
            i += 1;
        }
        proof {
            assert(values@.take(values@.len() as int) =~= values@);
            assert(multiples(arithmetic, self@.data, factor, data@));
        }
        dense::checked_output(
            arithmetic,
            dense::copy_shape(self.dimensions()),
            data,
            "scale",
        )
    }

    /// Applies `SiLU`, also known as the swish activation, elementwise.
    pub fn silu<A: Arithmetic<T>>(&self, arithmetic: &A) -> (result: Result<Self, TensorError>)
        ensures
            exists|data: Seq<T>| #[trigger]
                activations(arithmetic, self@.data, data) && dense::checked(
                    arithmetic,
                    self@.shape,
                    data,
                    "silu"@,
                    dense::answer_of(result),
                ),
    {
        let values = self.values();
        let mut data: Vec<T> = Vec::new();
        let mut i: usize = 0;
        while i < values.len()
            invariant
                i <= values@.len(),
                activations(arithmetic, values@.take(i as int), data@),
            decreases values@.len() - i,
        {
            let value = values[i];
            let opposite = arithmetic.negate(value);
            let power = arithmetic.exponential(opposite);
            let one = arithmetic.one();
            let divisor = arithmetic.add(one, power);
            let activation = arithmetic.divide(value, divisor);
            assert(silu_of(arithmetic, value, activation));
            data.push(activation);
            i += 1;
        }
        proof {
            assert(values@.take(values@.len() as int) =~= values@);
            assert(activations(arithmetic, self@.data, data@));
        }
        dense::checked_output(
            arithmetic,
            dense::copy_shape(self.dimensions()),
            data,
            "silu",
        )
    }

    /// Combines the values of two tensors of one shape.
    fn binary_op<F, A: Arithmetic<T>>(
        &self,
        rhs: &Self,
        operation: &'static str,
        function: F,
        arithmetic: &A,
    ) -> (result: Result<Self, TensorError>) where F: Fn(T, T) -> T
        requires
            forall|left: T, right: T| #[trigger] call_requires(function, (left, right)),
        ensures
            if self@.shape != rhs@.shape {
                dense::answer_of(result) == Err::<Contents<T>, TensorFault>(
                    TensorFault::ShapeMismatch { left: self@.shape, right: rhs@.shape },
                )
            } else {
                exists|data: Seq<T>| #[trigger]
                    combined(function, self@.data, rhs@.data, data) && dense::checked(
                        arithmetic,
                        self@.shape,
                        data,
                        operation@,
                        dense::answer_of(result),
                    )
            },
    {
        if !dense::same_shape(self.dimensions(), rhs.dimensions()) {
            return Err(
                TensorError::ShapeMismatch {
                    left: dense::copy_shape(self.dimensions()),
                    right: dense::copy_shape(rhs.dimensions()),
                },
            );
        }
        let left = self.values();
        let right = rhs.values();
        let mut data: Vec<T> = Vec::new();
        let mut i: usize = 0;
        while i < left.len()
            invariant
                i <= left@.len(),
                left@.len() == right@.len(),
                forall|left: T, right: T| #[trigger] call_requires(function, (left, right)),
                combined(function, left@.take(i as int), right@.take(i as int), data@),
            decreases left@.len() - i,
        {
            let value = function(left[i], right[i]);
            data.push(value);
            i += 1;
        }
        proof {
            assert(left@.take(left@.len() as int) =~= left@);
            assert(right@.take(left@.len() as int) =~= right@);
            assert(combined(function, self@.data, rhs@.data, data@));
        }
        dense::checked_output(
            arithmetic,
            dense::copy_shape(self.dimensions()),
            data,
            operation,
        )
    }
}

/// `data` are the results of a function on the values at equal places.
spec fn combined<T, F: Fn(T, T) -> T>(
    function: F,
    left: Seq<T>,
    right: Seq<T>,
    data: Seq<T>,
) -> bool {
    &&& data.len() == left.len()
    &&& forall|i: int|
        0 <= i < data.len() ==> call_ensures(function, (left[i], right[i]), #[trigger] data[i])
}

} // verus!
