//! Rotary position embedding.

use vstd::prelude::*;

use crate::tensor::arithmetic::Arithmetic;
use crate::tensor::dense;
use crate::tensor::dense::{Contents, Tensor};
use crate::tensor::error::{TensorError, TensorFault};
use crate::tensor::matrix;

verus! {

/// `exponent` is minus two times the number of the pair, divided by the width
/// of a head.
pub open spec fn rotary_exponent<T, A: Arithmetic<T>>(
    arithmetic: &A,
    width: usize,
    pair: usize,
    exponent: T,
) -> bool {
    exists|factor: T, number: T, length: T|
        {
            &&& #[trigger] call_ensures(A::from_integer, (arithmetic, -2i32), factor)
            &&& #[trigger] call_ensures(A::from_count, (arithmetic, pair), number)
            &&& #[trigger] call_ensures(A::from_count, (arithmetic, width), length)
            &&& exists|product: T|
                {
                    &&& #[trigger] call_ensures(
                        A::multiply,
                        (arithmetic, factor, number),
                        product,
                    )
                    &&& call_ensures(A::divide, (arithmetic, product, length), exponent)
                }
        }
}

/// `angle` is the position times the frequency base to the power of the
/// exponent.
pub open spec fn rotary_angle<T, A: Arithmetic<T>>(
    arithmetic: &A,
    width: usize,
    pair: usize,
    position: T,
    base: T,
    angle: T,
) -> bool {
    exists|exponent: T|
        {
            &&& #[trigger] rotary_exponent(arithmetic, width, pair, exponent)
            &&& exists|frequency: T|
                {
                    &&& #[trigger] call_ensures(A::power, (arithmetic, base, exponent), frequency)
                    &&& call_ensures(A::multiply, (arithmetic, position, frequency), angle)
                }
        }
}

/// `result` is `a` times `b` less `c` times `d`.
pub open spec fn product_difference<T, A: Arithmetic<T>>(
    arithmetic: &A,
    a: T,
    b: T,
    c: T,
    d: T,
    result: T,
) -> bool {
    exists|left: T, right: T|
        {
            &&& call_ensures(A::multiply, (arithmetic, a, b), left)
            &&& call_ensures(A::multiply, (arithmetic, c, d), right)
            &&& #[trigger] call_ensures(A::subtract, (arithmetic, left, right), result)
        }
}

/// `result` is `a` times `b` plus `c` times `d`.
pub open spec fn product_sum<T, A: Arithmetic<T>>(
    arithmetic: &A,
    a: T,
    b: T,
    c: T,
    d: T,
    result: T,
) -> bool {
    exists|left: T, right: T|
        {
            &&& call_ensures(A::multiply, (arithmetic, a, b), left)
            &&& call_ensures(A::multiply, (arithmetic, c, d), right)
            &&& #[trigger] call_ensures(A::add, (arithmetic, left, right), result)
        }
}

/// `first` and `second` are a pair of values turned by `angle`.
pub open spec fn turned<T, A: Arithmetic<T>>(
    arithmetic: &A,
    angle: T,
    values: (T, T),
    results: (T, T),
) -> bool {
    exists|waves: (T, T)|
        {
            &&& #[trigger] call_ensures(A::sine_cosine, (arithmetic, angle), waves)
            &&& product_difference(
                arithmetic,
                values.0,
                waves.1,
                values.1,
                waves.0,
                results.0,
            )
            &&& product_sum(arithmetic, values.0, waves.0, values.1, waves.1, results.1)
        }
}

/// Pair `pair` of a row, as a tuple.
pub open spec fn pair_of<T>(row: Seq<T>, pair: int) -> (T, T) {
    (row[2 * pair], row[2 * pair + 1])
}

/// Pair `pair` of a row is turned.
pub open spec fn pair_turned<T, A: Arithmetic<T>>(
    arithmetic: &A,
    row: Seq<T>,
    pair: int,
    position: T,
    base: T,
    results: (T, T),
) -> bool {
    exists|angle: T|
        {
            &&& #[trigger] rotary_angle(
                arithmetic,
                row.len() as usize,
                pair as usize,
                position,
                base,
                angle,
            )
            &&& turned(arithmetic, angle, pair_of(row, pair), results)
        }
}

/// The leading pairs of a row are turned, and what follows them is kept.
pub open spec fn row_turned<T, A: Arithmetic<T>>(
    arithmetic: &A,
    row: Seq<T>,
    rotary: int,
    position: T,
    base: T,
    out: Seq<T>,
) -> bool {
    &&& out.len() == row.len()
    &&& forall|pair: int|
        0 <= pair < rotary / 2 ==> pair_turned(
            arithmetic,
            row,
            pair,
            position,
            base,
            #[trigger] pair_of(out, pair),
        )
    &&& forall|i: int| rotary <= i < row.len() ==> #[trigger] out[i] == row[i]
}

/// The rows of all heads are turned.
pub open spec fn heads_turned<T, A: Arithmetic<T>>(
    arithmetic: &A,
    contents: Contents<T>,
    rotary: int,
    position: T,
    base: T,
    data: Seq<T>,
) -> bool {
    let width = contents.shape[1] as int;
    &&& data.len() == contents.data.len()
    &&& forall|head: int|
        0 <= head < contents.shape[0] ==> row_turned(
            arithmetic,
            matrix::row_of(contents.data, width, head),
            rotary,
            position,
            base,
            #[trigger] matrix::row_of(data, width, head),
        )
}

/// Whether heads of a given shape have pairs to turn.
pub open spec fn rotary_fits(shape: Seq<usize>, rotary: usize) -> bool {
    &&& shape.len() == 2
    &&& shape[1] % 2 == 0
    &&& 0 < rotary <= shape[1]
    &&& rotary % 2 == 0
}

/// What is said of the position and of the frequency base.
pub open spec fn rotary_parameters<T, A: Arithmetic<T>>(
    arithmetic: &A,
    position: T,
    base: T,
    fault: Option<TensorFault>,
) -> bool {
    match fault {
        Some(TensorFault::InvalidPosition) => call_ensures(
            A::is_finite,
            (arithmetic, position),
            false,
        ),
        Some(TensorFault::InvalidFrequencyBase) => {
            &&& call_ensures(A::is_finite, (arithmetic, position), true)
            &&& (call_ensures(A::is_finite, (arithmetic, base), false) || call_ensures(
                A::is_positive,
                (arithmetic, base),
                false,
            ))
        },
        Some(_) => false,
        None => {
            &&& call_ensures(A::is_finite, (arithmetic, position), true)
            &&& call_ensures(A::is_finite, (arithmetic, base), true)
            &&& call_ensures(A::is_positive, (arithmetic, base), true)
        },
    }
}

/// Turns one pair.
fn turn_pair<T: Copy, A: Arithmetic<T>>(
    arithmetic: &A,
    width: usize,
    pair: usize,
    position: T,
    base: T,
    values: (T, T),
) -> (results: (T, T))
    ensures
        exists|angle: T|
            {
                &&& #[trigger] rotary_angle(arithmetic, width, pair, position, base, angle)
                &&& turned(arithmetic, angle, values, results)
            },
{
    let (first, second) = values;
    let factor = arithmetic.from_integer(-2);
    let number = arithmetic.from_count(pair);
    let length = arithmetic.from_count(width);
    let product = arithmetic.multiply(factor, number);
    let exponent = arithmetic.divide(product, length);
    assert(rotary_exponent(arithmetic, width, pair, exponent));
    let frequency = arithmetic.power(base, exponent);
    let angle = arithmetic.multiply(position, frequency);
    assert(rotary_angle(arithmetic, width, pair, position, base, angle));
    let waves = arithmetic.sine_cosine(angle);
    let (sine, cosine) = waves;
    let first_cosine = arithmetic.multiply(first, cosine);
    let second_sine = arithmetic.multiply(second, sine);
    let x = arithmetic.subtract(first_cosine, second_sine);
    let first_sine = arithmetic.multiply(first, sine);
    let second_cosine = arithmetic.multiply(second, cosine);
    let y = arithmetic.add(first_sine, second_cosine);
    assert(product_difference(arithmetic, first, cosine, second, sine, x));
    assert(product_sum(arithmetic, first, sine, second, cosine, y));
    assert(turned(arithmetic, angle, values, (x, y)));
    (x, y)
}

/// Turns the leading pairs of a row.
fn turn_row<T: Copy, A: Arithmetic<T>>(
    arithmetic: &A,
    values: &Vec<T>,
    start: usize,
    width: usize,
    rotary: usize,
    position: T,
    base: T,
) -> (out: Vec<T>)
    requires
        start + width <= values@.len(),
        rotary <= width,
        rotary % 2 == 0,
    ensures
        row_turned(
            arithmetic,
            values@.subrange(start as int, start + width),
            rotary as int,
            position,
            base,
            out@,
        ),
{
    let ghost row = values@.subrange(start as int, start + width);
    let total: usize = values.len();
    let mut out: Vec<T> = Vec::new();
    let mut pair: usize = 0;
    while pair < rotary / 2
        invariant
            pair <= rotary / 2,
            rotary <= width,
            total == values@.len(),
            start + width <= total,
            row == values@.subrange(start as int, start + width),
            out@.len() == 2 * pair,
            forall|p: int|
                0 <= p < pair ==> pair_turned(
                    arithmetic,
                    row,
                    p,
                    position,
                    base,
                    #[trigger] pair_of(out@, p),
                ),
        decreases rotary / 2 - pair,
    {
        let first = values[start + pair * 2];
        let second = values[start + pair * 2 + 1];
        assert((first, second) == pair_of(row, pair as int));
        let (x, y) = turn_pair(arithmetic, width, pair, position, base, (first, second));
        let ghost before = out@;
        out.push(x);
        out.push(y);
        proof {
            assert(pair_of(out@, pair as int) == (x, y));
            let angle = choose|angle: T|
                {
                    &&& #[trigger] rotary_angle(arithmetic, width, pair, position, base, angle)
                    &&& turned(arithmetic, angle, (first, second), (x, y))
                };
            assert(rotary_angle(
                arithmetic,
                row.len() as usize,
                pair as int as usize,
                position,
                base,
                angle,
            ));
            assert(pair_turned(
                arithmetic,
                row,
                pair as int,
                position,
                base,
                pair_of(out@, pair as int),
            ));
            assert forall|p: int| 0 <= p < pair implies #[trigger] pair_of(out@, p) == pair_of(
                before,
                p,
            ) by {}
        }
        pair += 1;
    }
    let mut i: usize = rotary;
    while i < width
        invariant
            rotary <= i <= width,
            rotary % 2 == 0,
            total == values@.len(),
            start + width <= total,
            row == values@.subrange(start as int, start + width),
            out@.len() == i,
            forall|p: int|
                0 <= p < rotary / 2 ==> pair_turned(
                    arithmetic,
                    row,
                    p,
                    position,
                    base,
                    #[trigger] pair_of(out@, p),
                ),
            forall|k: int| rotary <= k < i ==> #[trigger] out@[k] == row[k],
        decreases width - i,
    {
        let ghost before = out@;
        let value = values[start + i];
        assert(value == row[i as int]);
        out.push(value);
        assert forall|p: int| 0 <= p < rotary / 2 implies #[trigger] pair_of(out@, p) == pair_of(
            before,
            p,
        ) by {}
        i += 1;
    }
    out
}

impl<T: Copy> Tensor<T> {
    /// Applies interleaved rotary position embedding to `[heads, head_dim]`.
    ///
    /// Only the first `rotary_dimension` values of each head are rotated.
    /// Values after that prefix are copied unchanged.
    pub fn rotary_embedding<A: Arithmetic<T>>(
        &self,
        rotary_dimension: usize,
        position: T,
        frequency_base: T,
        arithmetic: &A,
    ) -> (result: Result<Self, TensorError>)
        ensures
            if !rotary_fits(self@.shape, rotary_dimension) {
                dense::answer_of(result) == Err::<Contents<T>, TensorFault>(
                    TensorFault::RotaryShapeMismatch { shape: self@.shape },
                )
            } else {
                ||| dense::answer_of(result) matches Err(fault) && rotary_parameters(
                    arithmetic,
                    position,
                    frequency_base,
                    Some(fault),
                )
                ||| {
                    &&& rotary_parameters(arithmetic, position, frequency_base, None)
                    &&& dense::answer_of(result) matches Err(fault) && dense::inputs_checked(
                        arithmetic,
                        self@.data,
                        Some(fault),
                    )
                }
                ||| {
                    &&& rotary_parameters(arithmetic, position, frequency_base, None)
                    &&& dense::inputs_checked(arithmetic, self@.data, None)
                    &&& exists|data: Seq<T>| #[trigger]
                        heads_turned(
                            arithmetic,
                            self@,
                            rotary_dimension as int,
                            position,
                            frequency_base,
                            data,
                        ) && dense::checked(
                            arithmetic,
                            self@.shape,
                            data,
                            "rotary_embedding"@,
                            dense::answer_of(result),
                        )
                }
            },
    {
        if self.rank() != 2 {
            return Err(
                TensorError::RotaryShapeMismatch { shape: dense::copy_shape(self.dimensions()) },
            );
        }
        let heads: usize = self.dimensions()[0];
        let width: usize = self.dimensions()[1];
        if width % 2 != 0 || rotary_dimension == 0 || rotary_dimension > width || rotary_dimension
            % 2 != 0 {
            return Err(
                TensorError::RotaryShapeMismatch { shape: dense::copy_shape(self.dimensions()) },
            );
        }
        if !arithmetic.is_finite(position) {
            return Err(TensorError::InvalidPosition);
        }
        if !arithmetic.is_finite(frequency_base) {
            return Err(TensorError::InvalidFrequencyBase);
        }
        if !arithmetic.is_positive(frequency_base) {
            return Err(TensorError::InvalidFrequencyBase);
        }
        match self.validate_finite(arithmetic) {
            Ok(()) => {},
            Err(error) => {
                return Err(error);
            },
        }
        let values = self.values();
        let total: usize = values.len();
        proof {
            dense::lemma_matrix_count(self@.shape);
        }
        let mut data: Vec<T> = Vec::new();
        let mut head: usize = 0;
        while head < heads
            invariant
                head <= heads,
                rotary_fits(self@.shape, rotary_dimension),
                heads == self@.shape[0],
                width == self@.shape[1],
                values@ == self@.data,
                total == values@.len() == heads * width,
                data@.len() == head * width,
                forall|h: int|
                    0 <= h < head ==> row_turned(
                        arithmetic,
                        matrix::row_of(values@, width as int, h),
                        rotary_dimension as int,
                        position,
                        frequency_base,
                        #[trigger] matrix::row_of(data@, width as int, h),
                    ),
            decreases heads - head,
        {
            proof {
                dense::lemma_inside(head as int, width - 1, heads as int, width as int);
            }
            let start: usize = head * width;
            let out = turn_row(
                arithmetic,
                values,
                start,
                width,
                rotary_dimension,
                position,
                frequency_base,
            );
            let ghost before = data@;
            let mut i: usize = 0;
            while i < out.len()
                invariant
                    i <= out@.len(),
                    data@ == before + out@.take(i as int),
                decreases out@.len() - i,
            {
                data.push(out[i]);
                i += 1;
                assert(data@ =~= before + out@.take(i as int));
            }
            proof {
                assert(data@ =~= before + out@);
                assert(matrix::row_of(values@, width as int, head as int) =~= values@.subrange(
                    start as int,
                    start + width,
                ));
                assert(matrix::row_of(data@, width as int, head as int) =~= out@);
                assert((head + 1) * width == head * width + width) by (nonlinear_arith);
                assert forall|h: int| 0 <= h < head implies #[trigger] matrix::row_of(
                    data@,
                    width as int,
                    h,
                ) == matrix::row_of(before, width as int, h) by {
                    assert(h * width + width <= head * width) by (nonlinear_arith)
                        requires
                            h + 1 <= head,
                            width >= 0,
                    ;
                    assert(0 <= h * width) by (nonlinear_arith)
                        requires
                            0 <= h,
                            width >= 0,
                    ;
                    assert(matrix::row_of(data@, width as int, h) =~= matrix::row_of(
                        before,
                        width as int,
                        h,
                    ));
                }
            }
            head += 1;
        }
        assert(heads_turned(
            arithmetic,
            self@,
            rotary_dimension as int,
            position,
            frequency_base,
            data@,
        ));
        dense::checked_output(
            arithmetic,
            dense::copy_shape(self.dimensions()),
            data,
            "rotary_embedding",
        )
    }
}

} // verus!
