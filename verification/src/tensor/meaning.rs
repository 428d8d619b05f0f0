//! What tensor operations come to, if values stand for real numbers.

use vstd::prelude::*;

use crate::tensor::arithmetic::Arithmetic;
use crate::tensor::attention;
use crate::tensor::dense;
use crate::tensor::dense::{Contents, Tensor};
use crate::tensor::error::TensorError;
use crate::tensor::matrix;
use crate::tensor::reals;
use crate::tensor::reals::Reals;
use crate::tensor::rows;
use crate::tensor::shape;

verus! {

/// A tensor whose values all stand for numbers.
pub open spec fn numeric<T>(n: Reals<T>, tensor: &Tensor<T>) -> bool {
    &&& dense::valid_contents(tensor@)
    &&& n.all(tensor@.data)
}

/// A tensor of a given shape came about, and its values stand for numbers.
pub open spec fn yields<T>(
    n: Reals<T>,
    result: Result<Tensor<T>, TensorError>,
    shape: Seq<usize>,
    length: nat,
) -> bool {
    &&& result matches Ok(tensor) && {
        &&& tensor@.shape == shape
        &&& tensor@.data.len() == length
        &&& n.all(tensor@.data)
    }
}

/// The number at a place of a result.
pub open spec fn number_at<T>(n: Reals<T>, result: Result<Tensor<T>, TensorError>, i: int) -> real {
    n.of(result->Ok_0@.data[i])
}

/// The sum of two tensors holds the sums of their numbers.
pub proof fn law_add_yields_sums<T: Copy, A: Arithmetic<T>>(
    arithmetic: &A,
    n: Reals<T>,
    left: &Tensor<T>,
    right: &Tensor<T>,
    result: Result<Tensor<T>, TensorError>,
)
    requires
        reals::exact(arithmetic, n),
        numeric(n, left),
        numeric(n, right),
        left@.shape == right@.shape,
        call_ensures(Tensor::<T>::add::<A>, (left, right, arithmetic), result),
    ensures
        yields(n, result, left@.shape, left@.data.len()),
        forall|i: int|
            0 <= i < left@.data.len() ==> #[trigger] number_at(n, result, i) == n.of(left@.data[i])
                + n.of(right@.data[i]),
{
}

/// The product of two tensors, element by element, holds the products of their
/// numbers.
pub proof fn law_mul_yields_products<T: Copy, A: Arithmetic<T>>(
    arithmetic: &A,
    n: Reals<T>,
    left: &Tensor<T>,
    right: &Tensor<T>,
    result: Result<Tensor<T>, TensorError>,
)
    requires
        reals::exact(arithmetic, n),
        numeric(n, left),
        numeric(n, right),
        left@.shape == right@.shape,
        call_ensures(Tensor::<T>::mul::<A>, (left, right, arithmetic), result),
    ensures
        yields(n, result, left@.shape, left@.data.len()),
        forall|i: int|
            0 <= i < left@.data.len() ==> #[trigger] number_at(n, result, i) == n.of(left@.data[i])
                * n.of(right@.data[i]),
{
}

/// A scaled tensor holds its numbers times the factor.
pub proof fn law_scale_yields_multiples<T: Copy, A: Arithmetic<T>>(
    arithmetic: &A,
    n: Reals<T>,
    tensor: &Tensor<T>,
    factor: T,
    result: Result<Tensor<T>, TensorError>,
)
    requires
        reals::exact(arithmetic, n),
        numeric(n, tensor),
        n.is(factor),
        call_ensures(Tensor::<T>::scale::<A>, (tensor, factor, arithmetic), result),
    ensures
        yields(n, result, tensor@.shape, tensor@.data.len()),
        forall|i: int|
            0 <= i < tensor@.data.len() ==> #[trigger] number_at(n, result, i) == n.of(
                tensor@.data[i],
            ) * n.of(factor),
{
}

/// Each activation, times one plus the exponential of the opposite number, gives
/// the number back.
pub proof fn law_silu_yields_activations<T: Copy, A: Arithmetic<T>>(
    arithmetic: &A,
    n: Reals<T>,
    tensor: &Tensor<T>,
    result: Result<Tensor<T>, TensorError>,
)
    requires
        reals::exact(arithmetic, n),
        n.has_exponential(),
        numeric(n, tensor),
        forall|i: int|
            0 <= i < tensor@.data.len() ==> -n.of(#[trigger] tensor@.data[i])
                <= n.largest_exponent,
        call_ensures(Tensor::<T>::silu::<A>, (tensor, arithmetic), result),
    ensures
        yields(n, result, tensor@.shape, tensor@.data.len()),
        forall|i: int|
            0 <= i < tensor@.data.len() ==> #[trigger] number_at(n, result, i) * (1real + n.exp(
                -n.of(tensor@.data[i]),
            )) == n.of(tensor@.data[i]),
{
}

/// The product of two sequences is the sum of the products of their numbers.
pub(crate) proof fn lemma_dot<T, A: Arithmetic<T>>(
    arithmetic: &A,
    n: Reals<T>,
    left: Seq<T>,
    right: Seq<T>,
    count: nat,
    value: T,
)
    requires
        reals::exact(arithmetic, n),
        count <= left.len(),
        count <= right.len(),
        n.all(left),
        n.all(right),
        matrix::dot_product(arithmetic, left, right, count, value),
    ensures
        n.is(value),
        n.of(value) == reals::sum(|k: int| n.of(left[k]) * n.of(right[k]), count),
    decreases count,
{
    if count > 0 {
        let last = count - 1;
        let (before, product) = choose|before: T, product: T|
            {
                &&& matrix::dot_product(arithmetic, left, right, last as nat, before)
                &&& call_ensures(A::multiply, (arithmetic, left[last], right[last]), product)
                &&& #[trigger] call_ensures(A::add, (arithmetic, before, product), value)
            };
        lemma_dot(arithmetic, n, left, right, last as nat, before);
    }
}

/// A matrix product holds, in each row and column, the sum of the products of
/// the numbers in that row of the left and that column of the right matrix.
pub proof fn law_matmul_yields_the_product<T: Copy, A: Arithmetic<T>>(
    arithmetic: &A,
    n: Reals<T>,
    left: &Tensor<T>,
    right: &Tensor<T>,
    result: Result<Tensor<T>, TensorError>,
    row: int,
    column: int,
)
    requires
        reals::exact(arithmetic, n),
        numeric(n, left),
        numeric(n, right),
        left@.shape.len() == 2,
        right@.shape.len() == 2,
        left@.shape[1] == right@.shape[0],
        left@.shape[0] * right@.shape[1] <= usize::MAX,
        call_ensures(Tensor::<T>::matmul::<A>, (left, right, arithmetic), result),
        0 <= row < left@.shape[0],
        0 <= column < right@.shape[1],
    ensures
        ({
            let inner = left@.shape[1] as int;
            let columns = right@.shape[1] as int;
            &&& yields(
                n,
                result,
                seq![left@.shape[0], right@.shape[1]],
                (left@.shape[0] * columns) as nat,
            )
            &&& number_at(n, result, row * columns + column) == reals::sum(
                |k: int|
                    n.of(left@.data[row * inner + k]) * n.of(right@.data[k * columns + column]),
                inner as nat,
            )
        }),
{
    let inner = left@.shape[1] as int;
    let columns = right@.shape[1] as int;
    dense::lemma_matrix_count(left@.shape);
    dense::lemma_matrix_count(right@.shape);
    let data = choose|data: Seq<T>| #[trigger]
        matrix::matrix_product(arithmetic, left@, right@, data) && dense::checked(
            arithmetic,
            seq![left@.shape[0], right@.shape[1]],
            data,
            "matmul"@,
            dense::answer_of(result),
        );
    assert forall|i: int| 0 <= i < data.len() implies n.is(#[trigger] data[i]) by {
        let r = i / columns;
        let c = i % columns;
        lemma_place_of(i, left@.shape[0] as int, columns);
        lemma_cell(arithmetic, n, left@, right@, data, r, c);
    }
    lemma_cell(arithmetic, n, left@, right@, data, row, column);
    dense::lemma_inside(row, column, left@.shape[0] as int, columns);
}

pub(crate) proof fn lemma_place_of(i: int, rows: int, columns: int)
    requires
        0 <= i < rows * columns,
        columns > 0,
    ensures
        0 <= i / columns < rows,
        0 <= i % columns < columns,
        i == (i / columns) * columns + i % columns,
{
    assert(0 <= i / columns < rows && 0 <= i % columns < columns && i == (i / columns) * columns + i
        % columns) by (nonlinear_arith)
        requires
            0 <= i < rows * columns,
            columns > 0,
    ;
}

proof fn lemma_cell<T, A: Arithmetic<T>>(
    arithmetic: &A,
    n: Reals<T>,
    left: Contents<T>,
    right: Contents<T>,
    data: Seq<T>,
    row: int,
    column: int,
)
    requires
        reals::exact(arithmetic, n),
        n.all(left.data),
        n.all(right.data),
        left.shape.len() == 2,
        right.shape.len() == 2,
        left.shape[1] == right.shape[0],
        left.data.len() == left.shape[0] * left.shape[1],
        right.data.len() == right.shape[0] * right.shape[1],
        matrix::matrix_product(arithmetic, left, right, data),
        0 <= row < left.shape[0],
        0 <= column < right.shape[1],
    ensures
        ({
            let inner = left.shape[1] as int;
            let columns = right.shape[1] as int;
            let value = data[row * columns + column];
            &&& n.is(value)
            &&& n.of(value) == reals::sum(
                |k: int|
                    n.of(left.data[row * inner + k]) * n.of(right.data[k * columns + column]),
                inner as nat,
            )
        }),
{
    let inner = left.shape[1] as int;
    let columns = right.shape[1] as int;
    let a = matrix::row_of(left.data, inner, row);
    let b = matrix::column_of(right.data, inner, columns, column);
    let value = matrix::cell(data, columns, row, column);
    assert forall|k: int| 0 <= k < inner implies n.is(#[trigger] a[k]) by {
        dense::lemma_inside(row, k, left.shape[0] as int, inner);
    }
    assert forall|k: int| 0 <= k < inner implies n.is(#[trigger] b[k]) by {
        dense::lemma_inside(k, column, inner, columns);
    }
    lemma_dot(arithmetic, n, a, b, inner as nat, value);
    reals::lemma_same_sum(
        |k: int| n.of(a[k]) * n.of(b[k]),
        |k: int| n.of(left.data[row * inner + k]) * n.of(right.data[k * columns + column]),
        inner as nat,
    );
}

/// A transposed matrix holds in each column and row what the matrix holds in
/// that row and column.
pub proof fn law_transpose_swaps_rows_and_columns<T: Copy, A: Arithmetic<T>>(
    arithmetic: &A,
    n: Reals<T>,
    tensor: &Tensor<T>,
    result: Result<Tensor<T>, TensorError>,
    row: int,
    column: int,
)
    requires
        reals::exact(arithmetic, n),
        numeric(n, tensor),
        tensor@.shape.len() == 2,
        call_ensures(Tensor::<T>::transpose_2d::<A>, (tensor, arithmetic), result),
        0 <= row < tensor@.shape[0],
        0 <= column < tensor@.shape[1],
    ensures
        result matches Ok(transposed) && {
            &&& transposed@.shape == seq![tensor@.shape[1], tensor@.shape[0]]
            &&& transposed@.data[column * tensor@.shape[0] + row] == tensor@.data[row
                * tensor@.shape[1] + column]
        },
{
    let rows = tensor@.shape[0] as int;
    let columns = tensor@.shape[1] as int;
    dense::lemma_matrix_count(tensor@.shape);
    assert(columns * rows == rows * columns) by (nonlinear_arith);
    let data = dense::transposed(tensor@);
    assert forall|i: int| 0 <= i < data.len() implies n.is(#[trigger] data[i]) by {
        lemma_place_of(i, columns, rows);
        dense::lemma_inside(i % rows, i / rows, rows, columns);
    }
    dense::lemma_inside(column, row, columns, rows);
    dense::lemma_split(column, row, rows);
}

/// Row `row` of data that stands in rows of `width` values.
pub open spec fn line<T>(data: Seq<T>, width: int, row: int) -> Seq<T> {
    data.subrange(row * width, row * width + width)
}

/// `row` is the number of a row.
pub open spec fn has_line<T>(data: Seq<T>, width: int, row: int) -> bool {
    0 <= row && (row + 1) * width <= data.len()
}

/// The numbers of a row.
pub open spec fn numbers<T>(n: Reals<T>, row: Seq<T>) -> Seq<real> {
    Seq::new(row.len(), |i: int| n.of(row[i]))
}

/// The sum of numbers.
pub open spec fn total(x: Seq<real>) -> real {
    reals::sum(|k: int| x[k], x.len())
}

/// The sum of the squares of numbers.
pub open spec fn square_total(x: Seq<real>) -> real {
    reals::sum(|k: int| x[k] * x[k], x.len())
}

/// The rows of a result make up its data.
proof fn lemma_lines<T>(contents: Contents<T>, data: Seq<T>, row: int)
    requires
        dense::valid_contents(contents),
        contents.shape.len() > 0,
        data.len() == contents.data.len(),
        has_line(contents.data, contents.shape.last() as int, row),
    ensures
        0 <= row < rows::row_count(contents),
        rows::row_at(contents, row) == line(contents.data, contents.shape.last() as int, row),
        rows::result_row(contents, data, row) == line(data, contents.shape.last() as int, row),
{
    rows::lemma_rows(contents);
    let width = contents.shape.last() as int;
    let count = rows::row_count(contents);
    assert(row < count) by (nonlinear_arith)
        requires
            (row + 1) * width <= count * width,
            width > 0,
    ;
    rows::lemma_row_place(contents, row);
    assert(rows::result_row(contents, data, row) =~= line(data, width, row));
}

proof fn lemma_all_lines<T>(n: Reals<T>, contents: Contents<T>, data: Seq<T>)
    requires
        dense::valid_contents(contents),
        contents.shape.len() > 0,
        data.len() == contents.data.len(),
        forall|row: int|
            0 <= row < rows::row_count(contents) ==> n.all(
                #[trigger] rows::result_row(contents, data, row),
            ),
    ensures
        n.all(data),
{
    rows::lemma_rows(contents);
    let width = contents.shape.last() as int;
    assert forall|i: int| 0 <= i < data.len() implies n.is(#[trigger] data[i]) by {
        lemma_place_of(i, rows::row_count(contents), width);
        let row = rows::result_row(contents, data, i / width);
        assert(n.is(row[i % width]));
    }
}

proof fn lemma_numeric_row<T>(n: Reals<T>, contents: Contents<T>, row: int)
    requires
        dense::valid_contents(contents),
        contents.shape.len() > 0,
        n.all(contents.data),
        0 <= row < rows::row_count(contents),
    ensures
        n.all(rows::row_at(contents, row)),
        rows::row_at(contents, row).len() == contents.shape.last(),
{
    rows::lemma_row_place(contents, row);
    let part = rows::row_at(contents, row);
    assert forall|i: int| 0 <= i < part.len() implies n.is(#[trigger] part[i]) by {
        assert(part[i] == contents.data[row * contents.shape.last() as int + i]);
    }
}

proof fn lemma_squares<T, A: Arithmetic<T>>(
    arithmetic: &A,
    n: Reals<T>,
    row: Seq<T>,
    count: nat,
    value: T,
)
    requires
        reals::exact(arithmetic, n),
        n.all(row),
        count <= row.len(),
        rows::sum_of_squares(arithmetic, row, count, value),
    ensures
        n.is(value),
        n.of(value) == reals::sum(|k: int| numbers(n, row)[k] * numbers(n, row)[k], count),
        n.of(value) >= 0real,
    decreases count,
{
    if count > 0 {
        let (before, square) = choose|before: T, square: T|
            {
                &&& rows::sum_of_squares(arithmetic, row, (count - 1) as nat, before)
                &&& call_ensures(
                    A::multiply,
                    (arithmetic, row[count - 1], row[count - 1]),
                    square,
                )
                &&& #[trigger] call_ensures(A::add, (arithmetic, before, square), value)
            };
        lemma_squares(arithmetic, n, row, (count - 1) as nat, before);
        let x = n.of(row[count - 1]);
        assert(x * x >= 0real) by (nonlinear_arith);
    }
}

/// `factor` brings the mean square of numbers, `epsilon` added to it, to one.
pub open spec fn normalizes(x: Seq<real>, epsilon: real, factor: real) -> bool {
    &&& factor > 0real
    &&& factor * factor * (square_total(x) + epsilon * (x.len() as real)) == x.len() as real
}

proof fn lemma_inverse<T, A: Arithmetic<T>>(
    arithmetic: &A,
    n: Reals<T>,
    row: Seq<T>,
    epsilon: T,
    inverse: T,
)
    requires
        reals::exact(arithmetic, n),
        n.all(row),
        0 < row.len() <= usize::MAX,
        n.is(epsilon),
        n.of(epsilon) > 0real,
        rows::inverse_norm(arithmetic, row, epsilon, inverse),
    ensures
        n.is(inverse),
        normalizes(numbers(n, row), n.of(epsilon), n.of(inverse)),
{
    let (total, count) = choose|total: T, count: T|
        {
            &&& #[trigger] rows::sum_of_squares(arithmetic, row, row.len(), total)
            &&& #[trigger] call_ensures(A::from_count, (arithmetic, row.len() as usize), count)
            &&& exists|mean: T|
                {
                    &&& #[trigger] call_ensures(A::divide, (arithmetic, total, count), mean)
                    &&& exists|shifted: T|
                        {
                            &&& #[trigger] call_ensures(
                                A::add,
                                (arithmetic, mean, epsilon),
                                shifted,
                            )
                            &&& exists|root: T|
                                {
                                    &&& #[trigger] call_ensures(
                                        A::square_root,
                                        (arithmetic, shifted),
                                        root,
                                    )
                                    &&& call_ensures(A::reciprocal, (arithmetic, root), inverse)
                                }
                        }
                }
        };
    lemma_squares(arithmetic, n, row, row.len(), total);
    let mean = choose|mean: T|
        {
            &&& #[trigger] call_ensures(A::divide, (arithmetic, total, count), mean)
            &&& exists|shifted: T|
                {
                    &&& #[trigger] call_ensures(A::add, (arithmetic, mean, epsilon), shifted)
                    &&& exists|root: T|
                        {
                            &&& #[trigger] call_ensures(
                                A::square_root,
                                (arithmetic, shifted),
                                root,
                            )
                            &&& call_ensures(A::reciprocal, (arithmetic, root), inverse)
                        }
                }
        };
    let shifted = choose|shifted: T|
        {
            &&& #[trigger] call_ensures(A::add, (arithmetic, mean, epsilon), shifted)
            &&& exists|root: T|
                {
                    &&& #[trigger] call_ensures(A::square_root, (arithmetic, shifted), root)
                    &&& call_ensures(A::reciprocal, (arithmetic, root), inverse)
                }
        };
    let root = choose|root: T|
        {
            &&& #[trigger] call_ensures(A::square_root, (arithmetic, shifted), root)
            &&& call_ensures(A::reciprocal, (arithmetic, root), inverse)
        };
    let length = n.of(count);
    assert(length == row.len() as real && length > 0real);
    let m = n.of(mean);
    let s = n.of(total);
    let e = n.of(epsilon);
    assert(m >= 0real) by (nonlinear_arith)
        requires
            m * length == s,
            s >= 0real,
            length > 0real,
    ;
    let r = n.of(root);
    let f = n.of(inverse);
    assert(r != 0real) by (nonlinear_arith)
        requires
            r * r == m + e,
            m >= 0real,
            e > 0real,
    ;
    assert(f > 0real) by (nonlinear_arith)
        requires
            f * r == 1real,
            r >= 0real,
    ;
    assert(f * f * (s + e * length) == length) by (nonlinear_arith)
        requires
            f * r == 1real,
            r * r == m + e,
            m * length == s,
    ;
}

/// Each row of numbers is multiplied with the factor that brings its mean square,
/// `epsilon` added to it, to one.
pub proof fn law_rms_norm_scales_rows_to_unit_mean_square<T: Copy, A: Arithmetic<T>>(
    arithmetic: &A,
    n: Reals<T>,
    tensor: &Tensor<T>,
    epsilon: T,
    result: Result<Tensor<T>, TensorError>,
    row: int,
)
    requires
        reals::exact(arithmetic, n),
        numeric(n, tensor),
        tensor@.shape.len() > 0,
        n.is(epsilon),
        n.of(epsilon) > 0real,
        call_ensures(Tensor::<T>::rms_norm::<A>, (tensor, epsilon, arithmetic), result),
        has_line(tensor@.data, tensor@.shape.last() as int, row),
    ensures
        yields(n, result, tensor@.shape, tensor@.data.len()),
        ({
            let width = tensor@.shape.last() as int;
            let x = numbers(n, line(tensor@.data, width, row));
            exists|factor: real| #[trigger]
                normalizes(x, n.of(epsilon), factor) && forall|i: int|
                    0 <= i < width ==> n.of(#[trigger] line(result->Ok_0@.data, width, row)[i])
                        == x[i] * factor
        }),
{
    let contents = tensor@;
    let data = choose|data: Seq<T>| #[trigger]
        rows::rows_normalized(arithmetic, contents, epsilon, data) && dense::checked(
            arithmetic,
            contents.shape,
            data,
            "rms_norm"@,
            dense::answer_of(result),
        );
    assert forall|r: int| 0 <= r < rows::row_count(contents) implies n.all(
        #[trigger] rows::result_row(contents, data, r),
    ) by {
        lemma_numeric_row(n, contents, r);
        let x = rows::row_at(contents, r);
        let inverse = choose|inverse: T|
            {
                &&& #[trigger] rows::inverse_norm(arithmetic, x, epsilon, inverse)
                &&& forall|i: int|
                    0 <= i < x.len() ==> call_ensures(
                        A::multiply,
                        (arithmetic, x[i], inverse),
                        #[trigger] rows::result_row(contents, data, r)[i],
                    )
            };
        rows::lemma_rows(contents);
        lemma_inverse(arithmetic, n, x, epsilon, inverse);
    }
    lemma_all_lines(n, contents, data);
    lemma_lines(contents, data, row);
    lemma_numeric_row(n, contents, row);
    let x = rows::row_at(contents, row);
    let out = rows::result_row(contents, data, row);
    let inverse = choose|inverse: T|
        {
            &&& #[trigger] rows::inverse_norm(arithmetic, x, epsilon, inverse)
            &&& forall|i: int|
                0 <= i < x.len() ==> call_ensures(
                    A::multiply,
                    (arithmetic, x[i], inverse),
                    #[trigger] out[i],
                )
        };
    rows::lemma_rows(contents);
    lemma_inverse(arithmetic, n, x, epsilon, inverse);
    assert(normalizes(numbers(n, x), n.of(epsilon), n.of(inverse)));
}

/// The same, and each value is multiplied with its weight.
pub proof fn law_weighted_rms_norm_scales_rows<T: Copy, A: Arithmetic<T>>(
    arithmetic: &A,
    n: Reals<T>,
    tensor: &Tensor<T>,
    weight: &Tensor<T>,
    epsilon: T,
    result: Result<Tensor<T>, TensorError>,
    row: int,
)
    requires
        reals::exact(arithmetic, n),
        numeric(n, tensor),
        numeric(n, weight),
        tensor@.shape.len() > 0,
        weight@.shape == seq![tensor@.shape.last()],
        n.is(epsilon),
        n.of(epsilon) > 0real,
        call_ensures(
            Tensor::<T>::rms_norm_with_weight::<A>,
            (tensor, weight, epsilon, arithmetic),
            result,
        ),
        has_line(tensor@.data, tensor@.shape.last() as int, row),
    ensures
        yields(n, result, tensor@.shape, tensor@.data.len()),
        ({
            let width = tensor@.shape.last() as int;
            let x = numbers(n, line(tensor@.data, width, row));
            exists|factor: real| #[trigger]
                normalizes(x, n.of(epsilon), factor) && forall|i: int|
                    0 <= i < width ==> n.of(#[trigger] line(result->Ok_0@.data, width, row)[i])
                        == x[i] * factor * n.of(weight@.data[i])
        }),
{
    let contents = tensor@;
    let width = contents.shape.last() as int;
    let data = choose|data: Seq<T>| #[trigger]
        rows::rows_weighted(arithmetic, contents, weight@.data, epsilon, data) && dense::checked(
            arithmetic,
            contents.shape,
            data,
            "rms_norm_with_weight"@,
            dense::answer_of(result),
        );
    assert(weight@.data.len() == width) by {
        reveal_with_fuel(shape::element_count_of, 2);
        assert(weight@.shape.drop_last() =~= seq![]);
        assert(1 * width == width);
    }
    assert forall|r: int| 0 <= r < rows::row_count(contents) implies n.all(
        #[trigger] rows::result_row(contents, data, r),
    ) by {
        lemma_weighted_row(arithmetic, n, contents, weight@.data, epsilon, data, r);
    }
    lemma_all_lines(n, contents, data);
    lemma_lines(contents, data, row);
    lemma_weighted_row(arithmetic, n, contents, weight@.data, epsilon, data, row);
}

proof fn lemma_weighted_row<T, A: Arithmetic<T>>(
    arithmetic: &A,
    n: Reals<T>,
    contents: Contents<T>,
    weights: Seq<T>,
    epsilon: T,
    data: Seq<T>,
    row: int,
)
    requires
        reals::exact(arithmetic, n),
        dense::valid_contents(contents),
        n.all(contents.data),
        contents.shape.len() > 0,
        n.all(weights),
        weights.len() == contents.shape.last(),
        n.is(epsilon),
        n.of(epsilon) > 0real,
        rows::rows_weighted(arithmetic, contents, weights, epsilon, data),
        0 <= row < rows::row_count(contents),
    ensures
        ({
            let x = numbers(n, rows::row_at(contents, row));
            let out = rows::result_row(contents, data, row);
            &&& n.all(out)
            &&& exists|factor: real| #[trigger]
                normalizes(x, n.of(epsilon), factor) && forall|i: int|
                    0 <= i < contents.shape.last() ==> n.of(#[trigger] out[i]) == x[i] * factor
                        * n.of(weights[i])
        }),
{
    lemma_numeric_row(n, contents, row);
    let x = rows::row_at(contents, row);
    let out = rows::result_row(contents, data, row);
    let inverse = choose|inverse: T|
        {
            &&& #[trigger] rows::inverse_norm(arithmetic, x, epsilon, inverse)
            &&& out.len() == x.len()
            &&& forall|i: int|
                0 <= i < x.len() ==> rows::weighted_value(
                    arithmetic,
                    x[i],
                    inverse,
                    weights[i],
                    #[trigger] out[i],
                )
        };
    rows::lemma_rows(contents);
    lemma_inverse(arithmetic, n, x, epsilon, inverse);
    assert(normalizes(numbers(n, x), n.of(epsilon), n.of(inverse)));
}

/// `shares` are positive numbers that add up to one, and are to each other as the
/// exponentials of the scores.
pub open spec fn are_shares<T>(n: Reals<T>, scores: Seq<real>, shares: Seq<real>) -> bool {
    &&& shares.len() == scores.len()
    &&& forall|i: int| 0 <= i < shares.len() ==> #[trigger] shares[i] > 0real
    &&& total(shares) == 1real
    &&& forall|i: int, j: int|
        0 <= i < shares.len() && 0 <= j < shares.len() ==> (#[trigger] shares[i]) * n.exp(scores[j])
            == (#[trigger] shares[j]) * n.exp(scores[i])
}

pub(crate) proof fn lemma_maximum<T, A: Arithmetic<T>>(
    arithmetic: &A,
    n: Reals<T>,
    values: Seq<T>,
    count: nat,
    maximum: T,
)
    requires
        reals::exact(arithmetic, n),
        n.all(values),
        count <= values.len(),
        rows::maximum_of(arithmetic, values, count, maximum),
    ensures
        count > 0 ==> n.is(maximum),
        count == 0 ==> call_ensures(A::lowest, (arithmetic,), maximum),
        forall|i: int| 0 <= i < count ==> n.of(#[trigger] values[i]) <= n.of(maximum),
        count > 0 ==> exists|i: int|
            0 <= i < count && n.of(#[trigger] values[i]) == n.of(maximum),
    decreases count,
{
    if count > 0 {
        let before = choose|before: T|
            {
                &&& rows::maximum_of(arithmetic, values, (count - 1) as nat, before)
                &&& #[trigger] call_ensures(
                    A::maximum,
                    (arithmetic, before, values[count - 1]),
                    maximum,
                )
            };
        lemma_maximum(arithmetic, n, values, (count - 1) as nat, before);
        assert(n.is(values[count - 1]));
    }
}

/// Exponentials of scores less the largest one, divided by their sum, are shares.
pub(crate) proof fn lemma_shares<T, A: Arithmetic<T>>(
    arithmetic: &A,
    n: Reals<T>,
    scores: Seq<T>,
    maximum: T,
    exponents: Seq<T>,
    sum: T,
    weights: Seq<T>,
)
    requires
        reals::exact(arithmetic, n),
        n.has_exponential(),
        n.all(scores),
        scores.len() > 0,
        n.is(maximum),
        forall|k: int|
            0 <= k < scores.len() ==> n.of(#[trigger] scores[k]) <= n.of(maximum),
        rows::shifted_exponentials(arithmetic, scores, maximum, exponents),
        n.is(sum),
        n.of(sum) == reals::sum(|k: int| n.of(exponents[k]), exponents.len()),
        weights.len() == scores.len(),
        forall|i: int|
            0 <= i < weights.len() ==> call_ensures(
                A::divide,
                (arithmetic, exponents[i], sum),
                #[trigger] weights[i],
            ),
    ensures
        n.all(weights),
        are_shares(n, numbers(n, scores), numbers(n, weights)),
{
    let m = n.of(maximum);
    let s = n.of(sum);
    let term = |k: int| n.of(exponents[k]);
    assert forall|k: int| 0 <= k < scores.len() implies n.is(#[trigger] exponents[k]) && n.of(
        exponents[k],
    ) == n.exp(n.of(scores[k]) - m) by {
        assert(rows::shifted_exponential(arithmetic, scores[k], maximum, exponents[k]));
        assert(n.is(scores[k]));
    }
    assert forall|k: int| 0 <= k < exponents.len() implies #[trigger] term(k) > 0real by {
        assert(n.is(exponents[k]));
    }
    reals::lemma_sum_positive(term, exponents.len());
    assert(reals::sum(term, exponents.len()) == s);
    assert forall|i: int| 0 <= i < weights.len() implies n.is(#[trigger] weights[i]) && n.of(
        weights[i],
    ) * s == n.of(exponents[i]) && n.of(weights[i]) > 0real by {
        assert(n.is(exponents[i]));
        let w = n.of(weights[i]);
        let e = n.of(exponents[i]);
        assert(w > 0real) by (nonlinear_arith)
            requires
                w * s == e,
                e > 0real,
                s > 0real,
        ;
    }
    let x = numbers(n, scores);
    let w = numbers(n, weights);
    assert(total(w) == 1real) by {
        let share = |k: int| w[k];
        assert forall|k: int| 0 <= k < weights.len() implies #[trigger] term(k) == share(k)
            * s by {
            assert(n.is(weights[k]));
        }
        reals::lemma_sum_scaled(share, term, s, weights.len());
        let t = reals::sum(share, weights.len());
        assert(t == 1real) by (nonlinear_arith)
            requires
                t * s == s,
                s > 0real,
        ;
    }
    assert forall|i: int, j: int| 0 <= i < w.len() && 0 <= j < w.len() implies (#[trigger] w[i])
        * n.exp(x[j]) == (#[trigger] w[j]) * n.exp(x[i]) by {
        assert(n.is(weights[i]) && n.is(weights[j]) && n.is(exponents[i]) && n.is(exponents[j]));
        assert(n.exponential_splits(x[i] - m, m) && n.exponential_splits(x[j] - m, m));
        assert(x[i] - m + m == x[i] && x[j] - m + m == x[j]);
        let ei = n.exp(x[i] - m);
        let ej = n.exp(x[j] - m);
        let em = n.exp(m);
        let wi = w[i];
        let wj = w[j];
        let xi = n.exp(x[i]);
        let xj = n.exp(x[j]);
        assert(wi * xj == wj * xi) by (nonlinear_arith)
            requires
                wi * s == ei,
                wj * s == ej,
                xi == ei * em,
                xj == ej * em,
                s > 0real,
        ;
    }
}

pub(crate) proof fn lemma_sum_of<T, A: Arithmetic<T>>(
    arithmetic: &A,
    n: Reals<T>,
    values: Seq<T>,
    count: nat,
    value: T,
)
    requires
        reals::exact(arithmetic, n),
        n.all(values),
        count <= values.len(),
        rows::sum_of(arithmetic, values, count, value) || attention::total_of(
            arithmetic,
            values,
            count,
            value,
        ),
    ensures
        n.is(value),
        n.of(value) == reals::sum(|k: int| n.of(values[k]), count),
    decreases count,
{
    if count > 0 {
        let before = choose|before: T|
            {
                &&& (rows::sum_of(arithmetic, values, (count - 1) as nat, before)
                    || attention::total_of(arithmetic, values, (count - 1) as nat, before))
                &&& #[trigger] call_ensures(
                    A::add,
                    (arithmetic, before, values[count - 1]),
                    value,
                )
            };
        lemma_sum_of(arithmetic, n, values, (count - 1) as nat, before);
    }
}

proof fn lemma_softmax_row<T, A: Arithmetic<T>>(
    arithmetic: &A,
    n: Reals<T>,
    row: Seq<T>,
    out: Seq<T>,
)
    requires
        reals::exact(arithmetic, n),
        n.has_exponential(),
        n.all(row),
        row.len() > 0,
        rows::row_softmax(arithmetic, row, out),
    ensures
        n.all(out),
        are_shares(n, numbers(n, row), numbers(n, out)),
{
    let (maximum, exponents, sum) = choose|maximum: T, exponents: Seq<T>, sum: T|
        {
            &&& #[trigger] rows::maximum_of(arithmetic, row, row.len(), maximum)
            &&& #[trigger] rows::shifted_exponentials(arithmetic, row, maximum, exponents)
            &&& #[trigger] rows::sum_of(arithmetic, exponents, exponents.len(), sum)
            &&& out.len() == row.len()
            &&& forall|i: int|
                0 <= i < row.len() ==> call_ensures(
                    A::divide,
                    (arithmetic, exponents[i], sum),
                    #[trigger] out[i],
                )
        };
    lemma_maximum(arithmetic, n, row, row.len(), maximum);
    assert(n.all(exponents)) by {
        assert forall|k: int| 0 <= k < exponents.len() implies n.is(#[trigger] exponents[k]) by {
            assert(rows::shifted_exponential(arithmetic, row[k], maximum, exponents[k]));
            assert(n.is(row[k]));
        }
    }
    lemma_sum_of(arithmetic, n, exponents, exponents.len(), sum);
    lemma_shares(arithmetic, n, row, maximum, exponents, sum, out);
}

/// Each row of a softmax holds the shares of the numbers of that row.
pub proof fn law_softmax_yields_shares<T: Copy, A: Arithmetic<T>>(
    arithmetic: &A,
    n: Reals<T>,
    tensor: &Tensor<T>,
    result: Result<Tensor<T>, TensorError>,
    row: int,
)
    requires
        reals::exact(arithmetic, n),
        n.has_exponential(),
        numeric(n, tensor),
        tensor@.shape.len() > 0,
        call_ensures(Tensor::<T>::softmax_last_dim::<A>, (tensor, arithmetic), result),
        has_line(tensor@.data, tensor@.shape.last() as int, row),
    ensures
        yields(n, result, tensor@.shape, tensor@.data.len()),
        are_shares(
            n,
            numbers(n, line(tensor@.data, tensor@.shape.last() as int, row)),
            numbers(n, line(result->Ok_0@.data, tensor@.shape.last() as int, row)),
        ),
{
    let contents = tensor@;
    rows::lemma_rows(contents);
    assert forall|r: int| 0 <= r < rows::row_count(contents) implies n.all(
        #[trigger] rows::row_at(contents, r),
    ) by {
        lemma_numeric_row(n, contents, r);
    }
    assert forall|index: int| !(#[trigger] rows::input_not_finite(arithmetic, contents, index)) by {
        if rows::input_not_finite(arithmetic, contents, index) {
            let r = choose|r: int| #[trigger]
                rows::row_not_finite(arithmetic, contents, r, index);
            assert(n.all(rows::row_at(contents, r)));
            assert(n.is(rows::row_at(contents, r)[index]));
        }
    }
    let data = choose|data: Seq<T>| #[trigger]
        rows::rows_softmax(arithmetic, contents, data) && dense::checked(
            arithmetic,
            contents.shape,
            data,
            "softmax"@,
            dense::answer_of(result),
        );
    assert forall|r: int| 0 <= r < rows::row_count(contents) implies n.all(
        #[trigger] rows::result_row(contents, data, r),
    ) by {
        lemma_numeric_row(n, contents, r);
        lemma_softmax_row(
            arithmetic,
            n,
            rows::row_at(contents, r),
            rows::result_row(contents, data, r),
        );
    }
    lemma_all_lines(n, contents, data);
    lemma_lines(contents, data, row);
    lemma_numeric_row(n, contents, row);
    lemma_softmax_row(
        arithmetic,
        n,
        rows::row_at(contents, row),
        rows::result_row(contents, data, row),
    );
}

} // verus!
