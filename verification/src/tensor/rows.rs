//! Operations that treat every row by itself.

use vstd::prelude::*;

use crate::tensor::arithmetic::Arithmetic;
use crate::tensor::dense;
use crate::tensor::dense::{Contents, Tensor};
use crate::tensor::error::{TensorError, TensorFault};
use crate::tensor::matrix;
use crate::tensor::shape;

verus! {

/// `value` is the sum, from left to right, of the first `count` values.
pub open spec fn sum_of<T, A: Arithmetic<T>>(
    arithmetic: &A,
    values: Seq<T>,
    count: nat,
    value: T,
) -> bool
    decreases count,
{
    if count == 0 {
        call_ensures(A::empty_sum, (arithmetic,), value)
    } else {
        exists|before: T|
            {
                &&& sum_of(arithmetic, values, (count - 1) as nat, before)
                &&& #[trigger] call_ensures(
                    A::add,
                    (arithmetic, before, values[count - 1]),
                    value,
                )
            }
    }
}

/// `value` is the sum, from left to right, of the squares of the first `count`
/// values.
pub open spec fn sum_of_squares<T, A: Arithmetic<T>>(
    arithmetic: &A,
    values: Seq<T>,
    count: nat,
    value: T,
) -> bool
    decreases count,
{
    if count == 0 {
        call_ensures(A::empty_sum, (arithmetic,), value)
    } else {
        exists|before: T, square: T|
            {
                &&& sum_of_squares(arithmetic, values, (count - 1) as nat, before)
                &&& call_ensures(
                    A::multiply,
                    (arithmetic, values[count - 1], values[count - 1]),
                    square,
                )
                &&& #[trigger] call_ensures(A::add, (arithmetic, before, square), value)
            }
    }
}

/// `value` is the greatest of the first `count` values.
pub open spec fn maximum_of<T, A: Arithmetic<T>>(
    arithmetic: &A,
    values: Seq<T>,
    count: nat,
    value: T,
) -> bool
    decreases count,
{
    if count == 0 {
        call_ensures(A::lowest, (arithmetic,), value)
    } else {
        exists|before: T|
            {
                &&& maximum_of(arithmetic, values, (count - 1) as nat, before)
                &&& #[trigger] call_ensures(
                    A::maximum,
                    (arithmetic, before, values[count - 1]),
                    value,
                )
            }
    }
}

/// `inverse` is the reciprocal of the root of the mean square, which `epsilon`
/// is added to.
pub open spec fn inverse_norm<T, A: Arithmetic<T>>(
    arithmetic: &A,
    row: Seq<T>,
    epsilon: T,
    inverse: T,
) -> bool {
    exists|total: T, count: T|
        {
            &&& #[trigger] sum_of_squares(arithmetic, row, row.len(), total)
            &&& #[trigger] call_ensures(A::from_count, (arithmetic, row.len() as usize), count)
            &&& exists|mean: T|
                {
                    &&& #[trigger] call_ensures(A::divide, (arithmetic, total, count), mean)
                    &&& exists|shifted: T|
                        {
                            &&& #[trigger] call_ensures(
                                A::add,
                                (arithmetic, mean, epsilon),
                                shifted,
                            )
                            &&& exists|root: T|
                                {
                                    &&& #[trigger] call_ensures(
                                        A::square_root,
                                        (arithmetic, shifted),
                                        root,
                                    )
                                    &&& call_ensures(A::reciprocal, (arithmetic, root), inverse)
                                }
                        }
                }
        }
}

/// `out` is a row divided by its norm.
pub open spec fn row_normalized<T, A: Arithmetic<T>>(
    arithmetic: &A,
    row: Seq<T>,
    epsilon: T,
    out: Seq<T>,
) -> bool {
    exists|inverse: T|
        {
            &&& #[trigger] inverse_norm(arithmetic, row, epsilon, inverse)
            &&& out.len() == row.len()
            &&& forall|i: int|
                0 <= i < row.len() ==> call_ensures(
                    A::multiply,
                    (arithmetic, row[i], inverse),
                    #[trigger] out[i],
                )
        }
}

/// `result` is a value times the inverse norm, and then times a weight.
pub open spec fn weighted_value<T, A: Arithmetic<T>>(
    arithmetic: &A,
    value: T,
    inverse: T,
    weight: T,
    result: T,
) -> bool {
    exists|scaled: T|
        {
            &&& #[trigger] call_ensures(A::multiply, (arithmetic, value, inverse), scaled)
            &&& call_ensures(A::multiply, (arithmetic, scaled, weight), result)
        }
}

/// `out` is a row divided by its norm, each value times a weight.
pub open spec fn row_weighted<T, A: Arithmetic<T>>(
    arithmetic: &A,
    row: Seq<T>,
    weights: Seq<T>,
    epsilon: T,
    out: Seq<T>,
) -> bool {
    exists|inverse: T|
        {
            &&& #[trigger] inverse_norm(arithmetic, row, epsilon, inverse)
            &&& out.len() == row.len()
            &&& forall|i: int|
                0 <= i < row.len() ==> weighted_value(
                    arithmetic,
                    row[i],
                    inverse,
                    weights[i],
                    #[trigger] out[i],
                )
        }
}

/// `exponents` are the exponentials of the values less `maximum`.
pub open spec fn shifted_exponentials<T, A: Arithmetic<T>>(
    arithmetic: &A,
    row: Seq<T>,
    maximum: T,
    exponents: Seq<T>,
) -> bool {
    &&& exponents.len() == row.len()
    &&& forall|i: int|
        0 <= i < row.len() ==> shifted_exponential(
            arithmetic,
            row[i],
            maximum,
            #[trigger] exponents[i],
        )
}

/// `result` is the exponential of a value less `maximum`.
pub open spec fn shifted_exponential<T, A: Arithmetic<T>>(
    arithmetic: &A,
    value: T,
    maximum: T,
    result: T,
) -> bool {
    exists|difference: T|
        {
            &&& #[trigger] call_ensures(A::subtract, (arithmetic, value, maximum), difference)
            &&& call_ensures(A::exponential, (arithmetic, difference), result)
        }
}

/// `out` is the softmax of a row.
pub open spec fn row_softmax<T, A: Arithmetic<T>>(
    arithmetic: &A,
    row: Seq<T>,
    out: Seq<T>,
) -> bool {
    exists|maximum: T, exponents: Seq<T>, total: T|
        {
            &&& #[trigger] maximum_of(arithmetic, row, row.len(), maximum)
            &&& #[trigger] shifted_exponentials(arithmetic, row, maximum, exponents)
            &&& #[trigger] sum_of(arithmetic, exponents, exponents.len(), total)
            &&& out.len() == row.len()
            &&& forall|i: int|
                0 <= i < row.len() ==> call_ensures(
                    A::divide,
                    (arithmetic, exponents[i], total),
                    #[trigger] out[i],
                )
        }
}

/// The length of the rows of a tensor.
pub open spec fn row_width<T>(contents: Contents<T>) -> int {
    contents.shape.last() as int
}

/// The number of rows of a tensor.
pub open spec fn row_count<T>(contents: Contents<T>) -> int {
    shape::element_count_of(contents.shape.drop_last()) as int
}

/// The row of a tensor at `index`.
pub open spec fn row_at<T>(contents: Contents<T>, index: int) -> Seq<T> {
    matrix::row_of(contents.data, row_width(contents), index)
}

/// The row of an equally shaped result at `index`.
pub open spec fn result_row<T>(contents: Contents<T>, data: Seq<T>, index: int) -> Seq<T> {
    matrix::row_of(data, row_width(contents), index)
}

/// All rows are divided by their norms.
pub open spec fn rows_normalized<T, A: Arithmetic<T>>(
    arithmetic: &A,
    contents: Contents<T>,
    epsilon: T,
    data: Seq<T>,
) -> bool {
    &&& data.len() == contents.data.len()
    &&& forall|row: int|
        0 <= row < row_count(contents) ==> row_normalized(
            arithmetic,
            row_at(contents, row),
            epsilon,
            #[trigger] result_row(contents, data, row),
        )
}

/// All rows are divided by their norms and weighted.
pub open spec fn rows_weighted<T, A: Arithmetic<T>>(
    arithmetic: &A,
    contents: Contents<T>,
    weights: Seq<T>,
    epsilon: T,
    data: Seq<T>,
) -> bool {
    &&& data.len() == contents.data.len()
    &&& forall|row: int|
        0 <= row < row_count(contents) ==> row_weighted(
            arithmetic,
            row_at(contents, row),
            weights,
            epsilon,
            #[trigger] result_row(contents, data, row),
        )
}

/// The softmax of all rows.
pub open spec fn rows_softmax<T, A: Arithmetic<T>>(
    arithmetic: &A,
    contents: Contents<T>,
    data: Seq<T>,
) -> bool {
    &&& data.len() == contents.data.len()
    &&& forall|row: int|
        0 <= row < row_count(contents) ==> row_softmax(
            arithmetic,
            row_at(contents, row),
            #[trigger] result_row(contents, data, row),
        )
}

/// The values of the first `count` rows are finite.
pub open spec fn rows_finite<T, A: Arithmetic<T>>(
    arithmetic: &A,
    contents: Contents<T>,
    count: int,
) -> bool {
    forall|row: int|
        0 <= row < count ==> dense::finite_before(
            arithmetic,
            #[trigger] row_at(contents, row),
            row_width(contents),
        )
}

/// A row holds a value that is not finite, the first one at `index` in it.
pub open spec fn row_not_finite<T, A: Arithmetic<T>>(
    arithmetic: &A,
    contents: Contents<T>,
    row: int,
    index: int,
) -> bool {
    &&& 0 <= row < row_count(contents)
    &&& rows_finite(arithmetic, contents, row)
    &&& dense::first_not_finite(arithmetic, row_at(contents, row), index)
}

/// The first value that is not finite stands at `index` in its row.
pub open spec fn input_not_finite<T, A: Arithmetic<T>>(
    arithmetic: &A,
    contents: Contents<T>,
    index: int,
) -> bool {
    exists|row: int| #[trigger] row_not_finite(arithmetic, contents, row, index)
}

/// `epsilon` is finite and not negative, as far as the arithmetic says.
pub open spec fn epsilon_accepted<T, A: Arithmetic<T>>(arithmetic: &A, epsilon: T) -> bool {
    &&& call_ensures(A::is_finite, (arithmetic, epsilon), true)
    &&& call_ensures(A::is_negative, (arithmetic, epsilon), false)
}

/// `epsilon` is not finite or negative, as far as the arithmetic says.
pub open spec fn epsilon_refused<T, A: Arithmetic<T>>(arithmetic: &A, epsilon: T) -> bool {
    ||| call_ensures(A::is_finite, (arithmetic, epsilon), false)
    ||| call_ensures(A::is_negative, (arithmetic, epsilon), true)
}

/// Tests `epsilon`.
fn check_epsilon<T: Copy, A: Arithmetic<T>>(arithmetic: &A, epsilon: T) -> (accepted: bool)
    ensures
        if accepted {
            epsilon_accepted(arithmetic, epsilon)
        } else {
            epsilon_refused(arithmetic, epsilon)
        },
{
    if !arithmetic.is_finite(epsilon) {
        return false;
    }
    !arithmetic.is_negative(epsilon)
}

/// The rows of a tensor lie one behind the other.
pub(crate) proof fn lemma_rows<T>(contents: Contents<T>)
    requires
        dense::valid_contents(contents),
        contents.shape.len() > 0,
    ensures
        contents.data.len() == row_count(contents) * row_width(contents),
        row_width(contents) > 0,
        row_count(contents) >= 1,
{
    shape::lemma_nonzero_drop_last(contents.shape);
    shape::lemma_element_count_positive(contents.shape.drop_last());
}

/// Rows before the one under way do not change when a value is appended.
proof fn lemma_earlier_rows<T>(
    contents: Contents<T>,
    before: Seq<T>,
    after: Seq<T>,
    row: int,
)
    requires
        row_width(contents) > 0,
        before.is_prefix_of(after),
        0 <= row,
        (row + 1) * row_width(contents) <= before.len(),
    ensures
        result_row(contents, before, row) == result_row(contents, after, row),
{
    let width = row_width(contents);
    assert((row + 1) * width == row * width + width) by (nonlinear_arith);
    assert(row * width >= 0) by (nonlinear_arith)
        requires
            row >= 0,
            width > 0,
    ;
    assert(result_row(contents, before, row) =~= result_row(contents, after, row));
}

/// A row that was appended to a result.
proof fn lemma_appended_row<T>(contents: Contents<T>, start: Seq<T>, out: Seq<T>, row: int)
    requires
        row_width(contents) > 0,
        0 <= row,
        start.len() == row * row_width(contents),
        out.len() == row_width(contents),
    ensures
        result_row(contents, start + out, row) == out,
        (start + out).len() == (row + 1) * row_width(contents),
{
    let width = row_width(contents);
    assert((row + 1) * width == row * width + width) by (nonlinear_arith);
    assert(result_row(contents, start + out, row) =~= out);
}

/// The sum of the squares of a row.
fn sum_squares<T: Copy, A: Arithmetic<T>>(
    arithmetic: &A,
    values: &Vec<T>,
    start: usize,
    width: usize,
    Ghost(row): Ghost<Seq<T>>,
) -> (total: T)
    requires
        start + width <= values@.len(),
        row == values@.subrange(start as int, start + width),
    ensures
        sum_of_squares(arithmetic, row, width as nat, total),
{
    let mut total = arithmetic.empty_sum();
    let end: usize = values.len();
    let mut i: usize = 0;
    while i < width
        invariant
            i <= width,
            end == values@.len(),
            start + width <= end,
            row == values@.subrange(start as int, start + width),
            sum_of_squares(arithmetic, row, i as nat, total),
        decreases width - i,
    {
        let value = values[start + i];
        assert(value == row[i as int]);
        let square = arithmetic.multiply(value, value);
        let next = arithmetic.add(total, square);
        assert(sum_of_squares(arithmetic, row, (i + 1) as nat, next));
        total = next;
        i += 1;
    }
    total
}

/// The inverse norm of a row.
fn invert_norm<T: Copy, A: Arithmetic<T>>(
    arithmetic: &A,
    values: &Vec<T>,
    start: usize,
    width: usize,
    epsilon: T,
    Ghost(row): Ghost<Seq<T>>,
) -> (inverse: T)
    requires
        start + width <= values@.len(),
        row == values@.subrange(start as int, start + width),
    ensures
        inverse_norm(arithmetic, row, epsilon, inverse),
{
    let total = sum_squares(arithmetic, values, start, width, Ghost(row));
    let count = arithmetic.from_count(width);
    let mean = arithmetic.divide(total, count);
    let shifted = arithmetic.add(mean, epsilon);
    let root = arithmetic.square_root(shifted);
    let inverse = arithmetic.reciprocal(root);
    assert(sum_of_squares(arithmetic, row, row.len(), total));
    assert(call_ensures(A::from_count, (arithmetic, row.len() as usize), count));
    inverse
}

/// Row `row` of a tensor, as part of its values.
pub(crate) proof fn lemma_row_place<T>(contents: Contents<T>, row: int)
    requires
        dense::valid_contents(contents),
        contents.shape.len() > 0,
        0 <= row < row_count(contents),
    ensures
        0 <= row * row_width(contents),
        row * row_width(contents) + row_width(contents) <= contents.data.len(),
        row_at(contents, row) == contents.data.subrange(
            row * row_width(contents),
            row * row_width(contents) + row_width(contents),
        ),
{
    lemma_rows(contents);
    let width = row_width(contents);
    let count = row_count(contents);
    assert(row * width + width <= count * width) by (nonlinear_arith)
        requires
            0 <= row < count,
            width > 0,
    ;
    assert(0 <= row * width) by (nonlinear_arith)
        requires
            0 <= row,
            width > 0,
    ;
    assert(row_at(contents, row) =~= contents.data.subrange(row * width, row * width + width));
}

/// A row divided by its norm.
fn normalize_row<T: Copy, A: Arithmetic<T>>(
    arithmetic: &A,
    values: &Vec<T>,
    start: usize,
    width: usize,
    epsilon: T,
) -> (out: Vec<T>)
    requires
        start + width <= values@.len(),
    ensures
        out@.len() == width,
        row_normalized(
            arithmetic,
            values@.subrange(start as int, start + width),
            epsilon,
            out@,
        ),
{
    let ghost row = values@.subrange(start as int, start + width);
    let total: usize = values.len();
    let inverse = invert_norm(arithmetic, values, start, width, epsilon, Ghost(row));
    let mut out: Vec<T> = Vec::new();
    let mut i: usize = 0;
    while i < width
        invariant
            i <= width,
            total == values@.len(),
            start + width <= total,
            row == values@.subrange(start as int, start + width),
            out@.len() == i,
            forall|k: int|
                0 <= k < i ==> call_ensures(
                    A::multiply,
                    (arithmetic, row[k], inverse),
                    #[trigger] out@[k],
                ),
        decreases width - i,
    {
        let value = values[start + i];
        assert(value == row[i as int]);
        out.push(arithmetic.multiply(value, inverse));
        i += 1;
    }
    out
}

/// A row divided by its norm and weighted.
fn weigh_row<T: Copy, A: Arithmetic<T>>(
    arithmetic: &A,
    values: &Vec<T>,
    start: usize,
    weights: &Vec<T>,
    epsilon: T,
) -> (out: Vec<T>)
    requires
        start + weights@.len() <= values@.len(),
    ensures
        out@.len() == weights@.len(),
        row_weighted(
            arithmetic,
            values@.subrange(start as int, start + weights@.len()),
            weights@,
            epsilon,
            out@,
        ),
{
    let width: usize = weights.len();
    let ghost row = values@.subrange(start as int, start + width);
    let total: usize = values.len();
    let inverse = invert_norm(arithmetic, values, start, width, epsilon, Ghost(row));
    let mut out: Vec<T> = Vec::new();
    let mut i: usize = 0;
    while i < width
        invariant
            i <= width,
            width == weights@.len(),
            total == values@.len(),
            start + width <= total,
            row == values@.subrange(start as int, start + width),
            out@.len() == i,
            forall|k: int|
                0 <= k < i ==> weighted_value(
                    arithmetic,
                    row[k],
                    inverse,
                    weights@[k],
                    #[trigger] out@[k],
                ),
        decreases width - i,
    {
        let value = values[start + i];
        assert(value == row[i as int]);
        let scaled = arithmetic.multiply(value, inverse);
        let weighted = arithmetic.multiply(scaled, weights[i]);
        assert(weighted_value(arithmetic, value, inverse, weights@[i as int], weighted));
        out.push(weighted);
        i += 1;
    }
    out
}

/// The softmax of a row.
fn soften_row<T: Copy, A: Arithmetic<T>>(
    arithmetic: &A,
    values: &Vec<T>,
    start: usize,
    width: usize,
) -> (out: Vec<T>)
    requires
        start + width <= values@.len(),
    ensures
        out@.len() == width,
        row_softmax(arithmetic, values@.subrange(start as int, start + width), out@),
{
    let ghost row = values@.subrange(start as int, start + width);
    let length: usize = values.len();
    let mut maximum = arithmetic.lowest();
    let mut i: usize = 0;
    while i < width
        invariant
            i <= width,
            length == values@.len(),
            start + width <= length,
            row == values@.subrange(start as int, start + width),
            maximum_of(arithmetic, row, i as nat, maximum),
        decreases width - i,
    {
        let value = values[start + i];
        assert(value == row[i as int]);
        let next = arithmetic.maximum(maximum, value);
        assert(maximum_of(arithmetic, row, (i + 1) as nat, next));
        maximum = next;
        i += 1;
    }
    let mut exponents: Vec<T> = Vec::new();
    let mut k: usize = 0;
    while k < width
        invariant
            k <= width,
            length == values@.len(),
            start + width <= length,
            row == values@.subrange(start as int, start + width),
            exponents@.len() == k,
            forall|j: int|
                0 <= j < k ==> shifted_exponential(
                    arithmetic,
                    row[j],
                    maximum,
                    #[trigger] exponents@[j],
                ),
        decreases width - k,
    {
        let value = values[start + k];
        assert(value == row[k as int]);
        let difference = arithmetic.subtract(value, maximum);
        let exponent = arithmetic.exponential(difference);
        assert(shifted_exponential(arithmetic, value, maximum, exponent));
        exponents.push(exponent);
        k += 1;
    }
    let total = add_up(arithmetic, &exponents);
    let mut out: Vec<T> = Vec::new();
    let mut n: usize = 0;
    while n < width
        invariant
            n <= width,
            exponents@.len() == width,
            out@.len() == n,
            forall|j: int|
                0 <= j < n ==> call_ensures(
                    A::divide,
                    (arithmetic, exponents@[j], total),
                    #[trigger] out@[j],
                ),
        decreases width - n,
    {
        out.push(arithmetic.divide(exponents[n], total));
        n += 1;
    }
    proof {
        assert(maximum_of(arithmetic, row, row.len(), maximum));
        assert(shifted_exponentials(arithmetic, row, maximum, exponents@));
        assert(sum_of(arithmetic, exponents@, exponents@.len(), total));
    }
    out
}

/// The sum of values, from left to right.
fn add_up<T: Copy, A: Arithmetic<T>>(arithmetic: &A, values: &Vec<T>) -> (total: T)
    ensures
        sum_of(arithmetic, values@, values@.len(), total),
{
    let mut total = arithmetic.empty_sum();
    let mut i: usize = 0;
    while i < values.len()
        invariant
            i <= values@.len(),
            sum_of(arithmetic, values@, i as nat, total),
        decreases values@.len() - i,
    {
        let next = arithmetic.add(total, values[i]);
        assert(sum_of(arithmetic, values@, (i + 1) as nat, next));
        total = next;
        i += 1;
    }
    total
}

/// `out` is what a function made of row `row`.
spec fn row_mapped<T, F: Fn(usize) -> Vec<T>>(
    function: F,
    contents: Contents<T>,
    data: Seq<T>,
    row: int,
) -> bool {
    exists|out: Vec<T>| #[trigger]
        call_ensures(function, ((row * row_width(contents)) as usize,), out) && out@ == result_row(
            contents,
            data,
            row,
        )
}

/// Applies a function to the place of every row and joins the results.
fn map_rows<T: Copy, F: Fn(usize) -> Vec<T>>(tensor: &Tensor<T>, function: F) -> (data: Vec<T>)
    requires
        tensor@.shape.len() > 0,
        forall|start: usize|
            start + row_width(tensor@) <= tensor@.data.len() ==> #[trigger] call_requires(
                function,
                (start,),
            ),
        forall|start: usize, out: Vec<T>| #[trigger]
            call_ensures(function, (start,), out) ==> out@.len() == row_width(tensor@),
    ensures
        data@.len() == tensor@.data.len(),
        forall|row: int|
            0 <= row < row_count(tensor@) ==> #[trigger] row_mapped(
                function,
                tensor@,
                data@,
                row,
            ),
{
    let width: usize = tensor.dimensions()[tensor.rank() - 1];
    let total: usize = tensor.len();
    let ghost contents = tensor@;
    let ghost count = row_count(contents);
    proof {
        lemma_rows(contents);
    }
    let mut data: Vec<T> = Vec::new();
    let mut start: usize = 0;
    let ghost mut row: int = 0;
    while start < total
        invariant
            contents == tensor@,
            dense::valid_contents(contents),
            contents.shape.len() > 0,
            count == row_count(contents),
            width == row_width(contents),
            width > 0,
            total == contents.data.len() == count * width,
            0 <= row <= count,
            start == row * width,
            start <= total,
            data@.len() == start,
            forall|start: usize|
                start + row_width(contents) <= contents.data.len() ==> #[trigger] call_requires(
                    function,
                    (start,),
                ),
            forall|start: usize, out: Vec<T>| #[trigger]
                call_ensures(function, (start,), out) ==> out@.len() == row_width(contents),
            forall|r: int| 0 <= r < row ==> #[trigger] row_mapped(function, contents, data@, r),
        decreases total - start,
    {
        proof {
            assert(row < count) by (nonlinear_arith)
                requires
                    row * width < count * width,
                    width > 0,
            ;
            lemma_row_place(contents, row);
        }
        let ghost before = data@;
        let out = function(start);
        let mut i: usize = 0;
        while i < out.len()
            invariant
                i <= out@.len(),
                data@ == before + out@.take(i as int),
            decreases out@.len() - i,
        {
            data.push(out[i]);
            i += 1;
            assert(data@ =~= before + out@.take(i as int));
        }
        proof {
            assert(data@ =~= before + out@);
            lemma_appended_row(contents, before, out@, row);
            assert forall|r: int| 0 <= r < row + 1 implies #[trigger] row_mapped(
                function,
                contents,
                data@,
                r,
            ) by {
                if r < row {
                    assert(row_mapped(function, contents, before, r));
                    assert((r + 1) * width <= row * width) by (nonlinear_arith)
                        requires
                            r + 1 <= row,
                            width > 0,
                    ;
                    lemma_earlier_rows(contents, before, data@, r);
                } else {
                    assert(call_ensures(
                        function,
                        ((row * row_width(contents)) as usize,),
                        out,
                    ));
                }
            }
            row = row + 1;
        }
        start = start + width;
    }
    proof {
        assert(row == count) by (nonlinear_arith)
            requires
                row <= count,
                row * width >= count * width,
                width > 0,
        ;
    }
    data
}

impl<T: Copy> Tensor<T> {
    /// Applies `RMSNorm` independently to every row along the last dimension.
    pub fn rms_norm<A: Arithmetic<T>>(&self, epsilon: T, arithmetic: &A) -> (result: Result<
        Self,
        TensorError,
    >)
        ensures
            ({
                ||| dense::answer_of(result) == Err::<Contents<T>, TensorFault>(
                    TensorFault::InvalidEpsilon,
                ) && epsilon_refused(arithmetic, epsilon)
                ||| epsilon_accepted(arithmetic, epsilon) && if self@.shape.len() == 0 {
                    dense::answer_of(result) == Err::<Contents<T>, TensorFault>(
                        TensorFault::ZeroDimension,
                    )
                } else {
                    exists|data: Seq<T>| #[trigger]
                        rows_normalized(arithmetic, self@, epsilon, data) && dense::checked(
                            arithmetic,
                            self@.shape,
                            data,
                            "rms_norm"@,
                            dense::answer_of(result),
                        )
                }
            }),
    {
        if !check_epsilon(arithmetic, epsilon) {
            return Err(TensorError::InvalidEpsilon);
        }
        if self.rank() == 0 {
            return Err(TensorError::ZeroDimension);
        }
        let width: usize = self.dimensions()[self.rank() - 1];
        let values = self.values();
        let total: usize = values.len();
        let function = |start: usize| -> (out: Vec<T>)
            requires
                start + width <= values@.len(),
            ensures
                out@.len() == width,
                row_normalized(
                    arithmetic,
                    values@.subrange(start as int, start + width),
                    epsilon,
                    out@,
                ),
            { normalize_row(arithmetic, values, start, width, epsilon) };
        let data = map_rows(self, function);
        proof {
            assert forall|row: int| 0 <= row < row_count(self@) implies row_normalized(
                arithmetic,
                row_at(self@, row),
                epsilon,
                #[trigger] result_row(self@, data@, row),
            ) by {
                assert(row_mapped(function, self@, data@, row));
                lemma_row_place(self@, row);
                assert(row * row_width(self@) <= total);
            }
            assert(rows_normalized(arithmetic, self@, epsilon, data@));
        }
        dense::checked_output(
            arithmetic,
            dense::copy_shape(self.dimensions()),
            data,
            "rms_norm",
        )
    }

    /// Applies weighted `RMSNorm` independently to every row along the last
    /// dimension.
    ///
    /// The weight must be a rank-1 tensor whose length equals the input's
    /// final dimension.
    pub fn rms_norm_with_weight<A: Arithmetic<T>>(
        &self,
        weight: &Self,
        epsilon: T,
        arithmetic: &A,
    ) -> (result: Result<Self, TensorError>)
        ensures
            ({
                ||| dense::answer_of(result) == Err::<Contents<T>, TensorFault>(
                    TensorFault::InvalidEpsilon,
                ) && epsilon_refused(arithmetic, epsilon)
                ||| epsilon_accepted(arithmetic, epsilon) && if self@.shape.len() == 0 {
                    dense::answer_of(result) == Err::<Contents<T>, TensorFault>(
                        TensorFault::ZeroDimension,
                    )
                } else if weight@.shape != seq![self@.shape.last()] {
                    dense::answer_of(result) == Err::<Contents<T>, TensorFault>(
                        TensorFault::ShapeMismatch {
                            left: weight@.shape,
                            right: seq![self@.shape.last()],
                        },
                    )
                } else {
                    ||| dense::answer_of(result) matches Err(fault) && dense::inputs_checked(
                        arithmetic,
                        self@.data,
                        Some(fault),
                    )
                    ||| {
                        &&& dense::inputs_checked(arithmetic, self@.data, None)
                        &&& dense::answer_of(result) matches Err(fault) && dense::inputs_checked(
                            arithmetic,
                            weight@.data,
                            Some(fault),
                        )
                    }
                    ||| {
                        &&& dense::inputs_checked(arithmetic, self@.data, None)
                        &&& dense::inputs_checked(arithmetic, weight@.data, None)
                        &&& exists|data: Seq<T>| #[trigger]
                            rows_weighted(arithmetic, self@, weight@.data, epsilon, data)
                                && dense::checked(
                                arithmetic,
                                self@.shape,
                                data,
                                "rms_norm_with_weight"@,
                                dense::answer_of(result),
                            )
                    }
                }
            }),
    {
        if !check_epsilon(arithmetic, epsilon) {
            return Err(TensorError::InvalidEpsilon);
        }
        if self.rank() == 0 {
            return Err(TensorError::ZeroDimension);
        }
        let width: usize = self.dimensions()[self.rank() - 1];
        let mut expected: Vec<usize> = Vec::new();
        expected.push(width);
        assert(expected@ =~= seq![self@.shape.last()]);
        if !dense::same_shape(weight.dimensions(), &expected) {
            return Err(
                TensorError::ShapeMismatch {
                    left: dense::copy_shape(weight.dimensions()),
                    right: expected,
                },
            );
        }
        match self.validate_finite(arithmetic) {
            Ok(()) => {},
            Err(error) => {
                return Err(error);
            },
        }
        match weight.validate_finite(arithmetic) {
            Ok(()) => {},
            Err(error) => {
                return Err(error);
            },
        }
        let values = self.values();
        let total: usize = values.len();
        let weights = weight.values();
        proof {
            lemma_vector_count(weight@.shape);
        }
        let function = |start: usize| -> (out: Vec<T>)
            requires
                start + weights@.len() <= values@.len(),
            ensures
                out@.len() == weights@.len(),
                row_weighted(
                    arithmetic,
                    values@.subrange(start as int, start + weights@.len()),
                    weights@,
                    epsilon,
                    out@,
                ),
            { weigh_row(arithmetic, values, start, weights, epsilon) };
        let data = map_rows(self, function);
        proof {
            assert forall|row: int| 0 <= row < row_count(self@) implies row_weighted(
                arithmetic,
                row_at(self@, row),
                weight@.data,
                epsilon,
                #[trigger] result_row(self@, data@, row),
            ) by {
                assert(row_mapped(function, self@, data@, row));
                lemma_row_place(self@, row);
                assert(row * row_width(self@) <= total);
            }
            assert(rows_weighted(arithmetic, self@, weight@.data, epsilon, data@));
        }
        dense::checked_output(
            arithmetic,
            dense::copy_shape(self.dimensions()),
            data,
            "rms_norm_with_weight",
        )
    }

    /// Applies numerically stable softmax independently along the last dimension.
    ///
    /// An input that is not finite is reported with its place in its row.
    pub fn softmax_last_dim<A: Arithmetic<T>>(&self, arithmetic: &A) -> (result: Result<
        Self,
        TensorError,
    >)
        ensures
            if self@.shape.len() == 0 {
                dense::answer_of(result) == Err::<Contents<T>, TensorFault>(TensorFault::ZeroDimension)
            } else {
                ||| exists|index: int| #[trigger]
                    input_not_finite(arithmetic, self@, index) && dense::answer_of(result) == Err::<
                        Contents<T>,
                        TensorFault,
                    >(TensorFault::NonFiniteInput { index: index as nat })
                ||| {
                    &&& rows_finite(arithmetic, self@, row_count(self@))
                    &&& exists|data: Seq<T>| #[trigger]
                        rows_softmax(arithmetic, self@, data) && dense::checked(
                            arithmetic,
                            self@.shape,
                            data,
                            "softmax"@,
                            dense::answer_of(result),
                        )
                }
            },
    {
        if self.rank() == 0 {
            return Err(TensorError::ZeroDimension);
        }
        let width: usize = self.dimensions()[self.rank() - 1];
        let values = self.values();
        let total: usize = values.len();
        if let Some(index) = find_in_rows(arithmetic, self) {
            return Err(TensorError::NonFiniteInput { index });
        }
        let function = |start: usize| -> (out: Vec<T>)
            requires
                start + width <= values@.len(),
            ensures
                out@.len() == width,
                row_softmax(
                    arithmetic,
                    values@.subrange(start as int, start + width),
                    out@,
                ),
            { soften_row(arithmetic, values, start, width) };
        let data = map_rows(self, function);
        proof {
            assert forall|row: int| 0 <= row < row_count(self@) implies row_softmax(
                arithmetic,
                row_at(self@, row),
                #[trigger] result_row(self@, data@, row),
            ) by {
                assert(row_mapped(function, self@, data@, row));
                lemma_row_place(self@, row);
                assert(row * row_width(self@) <= total);
            }
            assert(rows_softmax(arithmetic, self@, data@));
        }
        dense::checked_output(
            arithmetic,
            dense::copy_shape(self.dimensions()),
            data,
            "softmax",
        )
    }
}

/// A vector has as many elements as its length says.
proof fn lemma_vector_count(shape: Seq<usize>)
    requires
        shape.len() == 1,
    ensures
        shape::element_count_of(shape) == shape[0],
{
    reveal_with_fuel(shape::element_count_of, 2);
    assert(shape.drop_last() =~= seq![]);
    assert(1 * shape[0] as nat == shape[0]);
}

/// Finds the first value that is not finite, and says where in its row it
/// stands.
fn find_in_rows<T: Copy, A: Arithmetic<T>>(arithmetic: &A, tensor: &Tensor<T>) -> (found: Option<
    usize,
>)
    requires
        tensor@.shape.len() > 0,
    ensures
        match found {
            Some(index) => input_not_finite(arithmetic, tensor@, index as int),
            None => rows_finite(arithmetic, tensor@, row_count(tensor@)),
        },
{
    let width: usize = tensor.dimensions()[tensor.rank() - 1];
    let values = tensor.values();
    let total: usize = values.len();
    let ghost contents = tensor@;
    let ghost count = row_count(contents);
    proof {
        lemma_rows(contents);
    }
    let mut start: usize = 0;
    let ghost mut row: int = 0;
    while start < total
        invariant
            contents == tensor@,
            dense::valid_contents(contents),
            contents.shape.len() > 0,
            count == row_count(contents),
            width == row_width(contents),
            width > 0,
            values@ == contents.data,
            total == values@.len() == count * width,
            0 <= row <= count,
            start == row * width,
            start <= total,
            rows_finite(arithmetic, contents, row),
        decreases total - start,
    {
        proof {
            assert(row < count) by (nonlinear_arith)
                requires
                    row * width < count * width,
                    width > 0,
            ;
            lemma_row_place(contents, row);
        }
        let ghost here = row_at(contents, row);
        let mut i: usize = 0;
        while i < width
            invariant
                i <= width,
                contents == tensor@,
                width == row_width(contents),
                0 <= row < row_count(contents),
                values@ == contents.data,
                total == values@.len(),
                start + width <= total,
                here == row_at(contents, row),
                here == values@.subrange(start as int, start + width),
                rows_finite(arithmetic, contents, row),
                dense::finite_before(arithmetic, here, i as int),
            decreases width - i,
        {
            let value = values[start + i];
            assert(value == here[i as int]);
            if !arithmetic.is_finite(value) {
                assert(row_not_finite(arithmetic, tensor@, row, i as int));
                assert(input_not_finite(arithmetic, tensor@, i as int));
                return Some(i);
            }
            i += 1;
        }
        proof {
            assert((row + 1) * width == row * width + width) by (nonlinear_arith);
            row = row + 1;
        }
        start = start + width;
    }
    proof {
        assert(row == count) by (nonlinear_arith)
            requires
                row <= count,
                row * width >= count * width,
                width > 0,
        ;
    }
    None
}

} // verus!
