//! Quantized matrices that are used without expanding them.

use vstd::prelude::*;

use crate::bytes;
use crate::gguf::types::TensorType;
use crate::model::blocks;
use crate::model::decode;
use crate::model::descriptor;
use crate::model::descriptor::{Descriptor, TensorDescriptor};
use crate::model::error;
use crate::model::error::{ModelError, ModelFault};
use crate::tensor::arithmetic::Arithmetic;
use crate::tensor::dense;
use crate::text;

verus! {

/// An owned GGUF quantized matrix that can be used without expansion.
///
/// Matrices are stored with the input dimension first and contiguous columns.
/// The encoded block bytes are retained in their original format; callers can
/// read one input column (for embeddings) or multiply a row vector directly
/// against the matrix.
#[derive(Debug, PartialEq)]
pub struct QuantizedMatrix {
    rows: usize,
    columns: usize,
    value_type: TensorType,
    bytes: Vec<u8>,
}

/// A quantized matrix, as a mathematical value.
#[verifier::ext_equal]
pub struct Matrix {
    pub rows: nat,
    pub columns: nat,
    pub value_type: u32,
    pub bytes: Seq<u8>,
}

/// Whole blocks make up a column, and the columns make up the bytes.
pub open spec fn valid_matrix(matrix: Matrix) -> bool {
    match blocks::quantized_layout(matrix.value_type) {
        Some(layout) => {
            &&& matrix.rows % layout.0 == 0
            &&& matrix.bytes.len() == matrix.columns * column_bytes(matrix)
        },
        None => false,
    }
}

/// The number of bytes in one column.
pub open spec fn column_bytes(matrix: Matrix) -> nat {
    let layout = blocks::quantized_layout(matrix.value_type)->0;
    (matrix.rows / layout.0) * layout.1
}

/// The bytes of one column.
pub open spec fn column_data(matrix: Matrix, column: int) -> Seq<u8> {
    let length = column_bytes(matrix) as int;
    matrix.bytes.subrange(column * length, column * length + length)
}

/// Why a tensor is no quantized matrix.
pub open spec fn matrix_fault(descriptor: Descriptor) -> Option<ModelFault> {
    if descriptor.shape.len() != 2 {
        Some(
            ModelFault::Shape(
                "quantized matrix requires rank 2, got "@ + text::number_list(
                    descriptor.shape.map_values(|v: usize| v as nat),
                ),
            ),
        )
    } else {
        storage_fault(descriptor, "quantized matrix rows must be a multiple of "@)
    }
}

/// Why the storage of a rank-2 tensor is not that of a quantized matrix.
pub open spec fn storage_fault(descriptor: Descriptor, unaligned: Seq<char>) -> Option<ModelFault> {
    let rows = descriptor.shape[0] as nat;
    let columns = descriptor.shape[1] as nat;
    match blocks::quantized_layout(descriptor.value_type) {
        None => Some(
            ModelFault::UnsupportedTensorType {
                name: descriptor.name,
                value_type: descriptor.value_type,
            },
        ),
        Some(layout) => if rows % layout.0 != 0 {
            Some(ModelFault::Shape(unaligned + text::decimal(layout.0)))
        } else {
            match descriptor::matrix_bytes(rows, columns, layout) {
                None => Some(ModelFault::Shape("quantized matrix byte length overflows"@)),
                Some(expected) => if descriptor.byte_len != expected {
                    Some(
                        ModelFault::Shape(
                            "quantized matrix byte length "@ + text::decimal(descriptor.byte_len)
                                + ", expected "@ + text::decimal(expected),
                        ),
                    )
                } else {
                    None
                },
            }
        },
    }
}

/// Checks that the storage of a rank-2 tensor is that of a quantized matrix.
pub(crate) fn check_storage(descriptor: &TensorDescriptor, unaligned: &str) -> (result: Result<
    usize,
    ModelError,
>)
    requires
        descriptor@.shape.len() == 2,
    ensures
        match result {
            Ok(length) => {
                &&& storage_fault(descriptor@, unaligned@) is None
                &&& length == descriptor@.byte_len
            },
            Err(error) => storage_fault(descriptor@, unaligned@) == Some(error@),
        },
{
    let rows: usize = descriptor.shape()[0];
    let columns: usize = descriptor.shape()[1];
    let value_type = descriptor.value_type();
    let layout = match blocks::quantized_block_layout(value_type.raw()) {
        Some(layout) => layout,
        None => {
            return Err(
                ModelError::UnsupportedTensorType {
                    name: text::owned(descriptor.name()),
                    value_type,
                },
            );
        },
    };
    if rows % layout.0 != 0 {
        let error = error::counted_shape_error(unaligned, layout.0 as u64, "");
        proof {
            reveal_strlit("");
            assert(unaligned@ + text::decimal(layout.0 as nat) + ""@ =~= unaligned@
                + text::decimal(layout.0 as nat));
        }
        return Err(error);
    }
    let expected: usize = match descriptor::count_matrix_bytes(rows, columns, layout) {
        Some(expected) => expected,
        None => {
            return Err(error::shape_error("quantized matrix byte length overflows"));
        },
    };
    if descriptor.byte_len() != expected as u64 {
        let error = error::compared_shape_error(
            "quantized matrix byte length ",
            descriptor.byte_len(),
            ", expected ",
            expected as u64,
            "",
        );
        proof {
            reveal_strlit("");
            let text = "quantized matrix byte length "@ + text::decimal(descriptor@.byte_len)
                + ", expected "@ + text::decimal(expected as nat);
            assert(text + ""@ =~= text);
        }
        return Err(error);
    }
    Ok(expected)
}

/// The columns of a quantized matrix lie one behind the other.
pub(crate) proof fn lemma_columns(rows: nat, columns: nat, layout: (nat, nat))
    requires
        layout.0 > 0,
        rows % layout.0 == 0,
    ensures
        ((rows * columns) / layout.0) * layout.1 == columns * ((rows / layout.0) * layout.1),
{
    let blocks = rows / layout.0;
    let values = layout.0 as int;
    assert(rows == blocks * values) by (nonlinear_arith)
        requires
            blocks == rows as int / values,
            rows as int % values == 0,
            values > 0,
    ;
    assert(rows * columns == (blocks * columns) * values) by (nonlinear_arith)
        requires
            rows == blocks * values,
    ;
    vstd::arithmetic::div_mod::lemma_div_multiples_vanish((blocks * columns) as int, values);
    vstd::arithmetic::mul::lemma_mul_is_commutative((blocks * columns) as int, values);
    assert((blocks * columns) * layout.1 == columns * (blocks * layout.1)) by (nonlinear_arith);
}

/// Checks that a tensor is a quantized matrix.
pub(crate) fn validate_quantized_matrix_descriptor(descriptor: &TensorDescriptor) -> (result:
    Result<usize, ModelError>)
    ensures
        match result {
            Ok(length) => {
                &&& matrix_fault(descriptor@) is None
                &&& length == descriptor@.byte_len
            },
            Err(error) => matrix_fault(descriptor@) == Some(error@),
        },
{
    if descriptor.shape().len() != 2 {
        return Err(
            error::listed_shape_error(
                "quantized matrix requires rank 2, got ",
                descriptor.shape(),
            ),
        );
    }
    check_storage(descriptor, "quantized matrix rows must be a multiple of ")
}

/// The matrix that a file holds for a tensor.
pub open spec fn matrix_of(file: Seq<u8>, descriptor: Descriptor) -> Matrix {
    Matrix {
        rows: descriptor.shape[0] as nat,
        columns: descriptor.shape[1] as nat,
        value_type: descriptor.value_type,
        bytes: descriptor::range_of(file, descriptor.byte_offset, descriptor.byte_len),
    }
}

/// Why a file holds no quantized matrix for a tensor.
pub open spec fn load_fault(file: nat, descriptor: Descriptor) -> Option<ModelFault> {
    match matrix_fault(descriptor) {
        Some(fault) => Some(fault),
        None => descriptor::range_fault(descriptor.byte_offset, descriptor.byte_len, file),
    }
}

/// Copies the bytes of a quantized matrix out of a file.
pub(crate) fn materialize_quantized(file: &[u8], descriptor: &TensorDescriptor) -> (result: Result<
    QuantizedMatrix,
    ModelError,
>)
    ensures
        match result {
            Ok(matrix) => {
                &&& load_fault(file@.len(), descriptor@) is None
                &&& matrix@ == matrix_of(file@, descriptor@)
            },
            Err(error) => load_fault(file@.len(), descriptor@) == Some(error@),
        },
{
    let length: usize = validate_quantized_matrix_descriptor(descriptor)?;
    let data = descriptor::tensor_range(file, descriptor.byte_offset(), length)?;
    let rows: usize = descriptor.shape()[0];
    let columns: usize = descriptor.shape()[1];
    proof {
        let layout = blocks::quantized_layout(descriptor@.value_type)->0;
        lemma_columns(rows as nat, columns as nat, layout);
    }
    let mut copy: Vec<u8> = Vec::new();
    bytes::push_bytes(&mut copy, data);
    assert(copy@ =~= data@);
    Ok(QuantizedMatrix { rows, columns, value_type: descriptor.value_type(), bytes: copy })
}

impl View for QuantizedMatrix {
    type V = Matrix;

    closed spec fn view(&self) -> Matrix {
        Matrix {
            rows: self.rows as nat,
            columns: self.columns as nat,
            value_type: self.value_type.code(),
            bytes: self.bytes@,
        }
    }
}

impl Clone for QuantizedMatrix {
    fn clone(&self) -> (copy: Self)
        ensures
            copy@ == self@,
    {
        proof {
            use_type_invariant(self);
        }
        QuantizedMatrix {
            rows: self.rows,
            columns: self.columns,
            value_type: self.value_type,
            bytes: self.bytes.clone(),
        }
    }
}

/// `values` are the finite weights of a column.
pub open spec fn column_values<T, A: Arithmetic<T>>(
    arithmetic: &A,
    matrix: Matrix,
    column: int,
    values: Seq<T>,
) -> bool {
    &&& decode::decoded(arithmetic, matrix.value_type, column_data(matrix, column), values)
    &&& dense::finite_before(arithmetic, values, values.len() as int)
}

/// A weight of a column is not finite.
pub open spec fn column_not_finite<T, A: Arithmetic<T>>(
    arithmetic: &A,
    matrix: Matrix,
    column: int,
) -> bool {
    exists|values: Seq<T>, index: int|
        {
            &&& #[trigger] decode::decoded(
                arithmetic,
                matrix.value_type,
                column_data(matrix, column),
                values,
            )
            &&& #[trigger] dense::first_not_finite(arithmetic, values, index)
        }
}

/// How a request for a column is answered.
pub open spec fn column_answer<T, A: Arithmetic<T>>(
    arithmetic: &A,
    matrix: Matrix,
    column: nat,
    result: Result<Vec<T>, ModelError>,
) -> bool {
    if column >= matrix.columns {
        result matches Err(error) && error@ == ModelFault::Shape(
            "quantized matrix column "@ + text::decimal(column) + " is outside "@ + text::decimal(
                matrix.columns,
            ) + " columns"@,
        )
    } else {
        match result {
            Ok(values) => column_values(arithmetic, matrix, column as int, values@),
            Err(error) => {
                &&& column_not_finite(arithmetic, matrix, column as int)
                &&& error@ == ModelFault::Shape("quantized matrix decoded a non-finite value"@)
            },
        }
    }
}

/// `value` is the sum of the products of the first `count` values at equal
/// places, and every sum on the way is finite.
pub open spec fn finite_product<T, A: Arithmetic<T>>(
    arithmetic: &A,
    left: Seq<T>,
    right: Seq<T>,
    count: nat,
    value: T,
) -> bool
    decreases count,
{
    if count == 0 {
        call_ensures(A::zero, (arithmetic,), value)
    } else {
        let last = count - 1;
        exists|before: T, product: T|
            {
                &&& finite_product(arithmetic, left, right, last as nat, before)
                &&& call_ensures(A::multiply, (arithmetic, left[last], right[last]), product)
                &&& #[trigger] call_ensures(A::add, (arithmetic, before, product), value)
                &&& call_ensures(A::is_finite, (arithmetic, value), true)
            }
    }
}

/// The sum of the products stops being finite with product number `count`.
pub open spec fn product_overflows_at<T, A: Arithmetic<T>>(
    arithmetic: &A,
    left: Seq<T>,
    right: Seq<T>,
    count: nat,
) -> bool {
    &&& count < left.len()
    &&& exists|before: T, product: T, value: T|
        {
            &&& finite_product(arithmetic, left, right, count, before)
            &&& call_ensures(
                A::multiply,
                (arithmetic, left[count as int], right[count as int]),
                product,
            )
            &&& #[trigger] call_ensures(A::add, (arithmetic, before, product), value)
            &&& call_ensures(A::is_finite, (arithmetic, value), false)
        }
}

/// `value` is the product of an input and a column.
pub open spec fn column_product<T, A: Arithmetic<T>>(
    arithmetic: &A,
    matrix: Matrix,
    input: Seq<T>,
    column: int,
    value: T,
) -> bool {
    exists|weights: Seq<T>| #[trigger]
        column_values(arithmetic, matrix, column, weights) && finite_product(
            arithmetic,
            input,
            weights,
            matrix.rows,
            value,
        )
}

/// The product of an input and a column is not finite.
pub open spec fn column_overflows<T, A: Arithmetic<T>>(
    arithmetic: &A,
    matrix: Matrix,
    input: Seq<T>,
    column: int,
) -> bool {
    exists|weights: Seq<T>, count: nat|
        {
            &&& #[trigger] column_values(arithmetic, matrix, column, weights)
            &&& #[trigger] product_overflows_at(arithmetic, input, weights, count)
        }
}

/// The products of an input and the first `count` columns.
pub open spec fn products_before<T, A: Arithmetic<T>>(
    arithmetic: &A,
    matrix: Matrix,
    input: Seq<T>,
    output: Seq<T>,
    count: int,
) -> bool {
    &&& output.len() == count
    &&& forall|column: int|
        0 <= column < count ==> column_product(
            arithmetic,
            matrix,
            input,
            column,
            #[trigger] output[column],
        )
}

/// `column` is the first whose product fails, and `fault` says why.
pub open spec fn product_fails<T, A: Arithmetic<T>>(
    arithmetic: &A,
    matrix: Matrix,
    input: Seq<T>,
    column: int,
    fault: ModelFault,
) -> bool {
    &&& 0 <= column < matrix.columns
    &&& exists|output: Seq<T>| #[trigger]
        products_before(arithmetic, matrix, input, output, column)
    &&& {
        ||| {
            &&& column_not_finite::<T, A>(arithmetic, matrix, column)
            &&& fault == ModelFault::Shape("quantized matrix decoded a non-finite value"@)
        }
        ||| {
            &&& column_overflows(arithmetic, matrix, input, column)
            &&& fault == ModelFault::Shape("quantized matmul produced a non-finite value"@)
        }
    }
}

/// How a request for a product is answered.
pub open spec fn product_answer<T, A: Arithmetic<T>>(
    arithmetic: &A,
    matrix: Matrix,
    input: Seq<T>,
    result: Result<Vec<T>, ModelError>,
) -> bool {
    if input.len() != matrix.rows {
        result matches Err(error) && error@ == length_fault(input.len(), matrix.rows)
    } else {
        match result {
            Ok(output) => {
                &&& dense::finite_before(arithmetic, input, input.len() as int)
                &&& products_before(
                    arithmetic,
                    matrix,
                    input,
                    output@,
                    matrix.columns as int,
                )
            },
            Err(error) => {
                ||| input_refused(arithmetic, input, error@)
                ||| {
                    &&& dense::finite_before(arithmetic, input, input.len() as int)
                    &&& exists|column: int| #[trigger]
                        product_fails(arithmetic, matrix, input, column, error@)
                }
            },
        }
    }
}

/// An input whose length is not that of a column.
pub open spec fn length_fault(actual: nat, expected: nat) -> ModelFault {
    ModelFault::Shape(
        "quantized matmul input has "@ + text::decimal(actual) + " values, expected "@
            + text::decimal(expected),
    )
}

/// An input with a value that is not finite.
pub open spec fn input_refused<T, A: Arithmetic<T>>(
    arithmetic: &A,
    input: Seq<T>,
    fault: ModelFault,
) -> bool {
    &&& exists|index: int| #[trigger] dense::first_not_finite(arithmetic, input, index)
    &&& fault == ModelFault::Shape("quantized matmul input contains a non-finite value"@)
}

/// Checks the input of a product.
pub(crate) fn check_input<T: Copy, A: Arithmetic<T>>(
    arithmetic: &A,
    input: &[T],
    rows: usize,
) -> (result: Result<(), ModelError>)
    ensures
        match result {
            Ok(()) => {
                &&& input@.len() == rows
                &&& dense::finite_before(arithmetic, input@, input@.len() as int)
            },
            Err(error) => if input@.len() != rows {
                error@ == length_fault(input@.len(), rows as nat)
            } else {
                input_refused(arithmetic, input@, error@)
            },
        },
{
    if input.len() != rows {
        let error = error::compared_shape_error(
            "quantized matmul input has ",
            input.len() as u64,
            " values, expected ",
            rows as u64,
            "",
        );
        proof {
            reveal_strlit("");
            let text = "quantized matmul input has "@ + text::decimal(input@.len())
                + " values, expected "@ + text::decimal(rows as nat);
            assert(text + ""@ =~= text);
        }
        return Err(error);
    }
    let mut i: usize = 0;
    while i < input.len()
        invariant
            i <= input@.len(),
            input@.len() == rows,
            dense::finite_before(arithmetic, input@, i as int),
        decreases input@.len() - i,
    {
        if !arithmetic.is_finite(input[i]) {
            assert(dense::first_not_finite(arithmetic, input@, i as int));
            return Err(
                error::shape_error("quantized matmul input contains a non-finite value"),
            );
        }
        i += 1;
    }
    Ok(())
}

/// Adds up the products of values at equal places, as long as the sum is
/// finite.
fn accumulate<T: Copy, A: Arithmetic<T>>(arithmetic: &A, input: &[T], weights: &Vec<T>) -> (sum:
    Option<T>)
    requires
        input@.len() == weights@.len(),
    ensures
        match sum {
            Some(sum) => finite_product(arithmetic, input@, weights@, input@.len(), sum),
            None => exists|count: nat| #[trigger]
                product_overflows_at(arithmetic, input@, weights@, count),
        },
{
    let mut sum = arithmetic.zero();
    let mut i: usize = 0;
    while i < input.len()
        invariant
            i <= input@.len(),
            input@.len() == weights@.len(),
            finite_product(arithmetic, input@, weights@, i as nat, sum),
        decreases input@.len() - i,
    {
        let product = arithmetic.multiply(input[i], weights[i]);
        let next = arithmetic.add(sum, product);
        if !arithmetic.is_finite(next) {
            assert(product_overflows_at(arithmetic, input@, weights@, i as nat));
            return None;
        }
        assert(finite_product(arithmetic, input@, weights@, (i + 1) as nat, next));
        sum = next;
        i += 1;
    }
    Some(sum)
}

/// A whole number of blocks has the weights of a column.
pub(crate) proof fn lemma_column_count(matrix: Matrix, column: int)
    requires
        valid_matrix(matrix),
        0 <= column < matrix.columns,
    ensures
        0 <= column * column_bytes(matrix),
        column * column_bytes(matrix) + column_bytes(matrix) <= matrix.bytes.len(),
        decode::decode_fault(matrix.value_type, column_data(matrix, column).len()) is None,
        decode::weight_count(matrix.value_type, column_data(matrix, column).len()) == matrix.rows,
{
    let length = column_bytes(matrix) as int;
    let columns = matrix.columns as int;
    let layout = blocks::quantized_layout(matrix.value_type)->0;
    assert(column * length + length <= columns * length && 0 <= column * length)
        by (nonlinear_arith)
        requires
            0 <= column < columns,
            0 <= length,
    ;
    let count = (matrix.rows / layout.0) as int;
    let size = layout.1 as int;
    let values = layout.0 as int;
    assert(blocks::layout_of(matrix.value_type) == Some(layout));
    vstd::arithmetic::div_mod::lemma_mod_multiples_basic(count, size);
    vstd::arithmetic::div_mod::lemma_div_multiples_vanish(count, size);
    vstd::arithmetic::mul::lemma_mul_is_commutative(count, size);
    assert(matrix.rows == count * values) by (nonlinear_arith)
        requires
            count == matrix.rows as int / values,
            matrix.rows as int % values == 0,
            values > 0,
    ;
}

impl QuantizedMatrix {
    #[verifier::type_invariant]
    spec fn well_formed(self) -> bool {
        valid_matrix(self@)
    }

    /// Number of input values expected by a row-vector product.
    pub fn rows(&self) -> (rows: usize)
        ensures
            rows == self@.rows,
    {
        self.rows
    }

    /// Number of output values produced by a row-vector product.
    pub fn columns(&self) -> (columns: usize)
        ensures
            columns == self@.columns,
    {
        self.columns
    }

    /// Returns the GGUF quantization format used by this matrix.
    pub fn value_type(&self) -> (value_type: TensorType)
        ensures
            value_type.code() == self@.value_type,
    {
        self.value_type
    }

    /// Returns one logical input column, preserving the matrix orientation.
    ///
    /// This is used for token embeddings, where the token id selects a column
    /// and the returned values have length [`Self::rows`].
    pub fn column<T: Copy, A: Arithmetic<T>>(&self, column: usize, arithmetic: &A) -> (result:
        Result<Vec<T>, ModelError>)
        ensures
            valid_matrix(self@),
            column_answer(arithmetic, self@, column as nat, result),
    {
        self.decode_column(column, arithmetic)
    }

    /// Computes a row-vector product directly from the encoded matrix.
    pub fn matmul_f32<T: Copy, A: Arithmetic<T>>(&self, input: &[T], arithmetic: &A) -> (result:
        Result<Vec<T>, ModelError>)
        ensures
            valid_matrix(self@),
            product_answer(arithmetic, self@, input@, result),
    {
        proof {
            use_type_invariant(self);
        }
        check_input(arithmetic, input, self.rows)?;
        let mut output: Vec<T> = Vec::new();
        let mut column: usize = 0;
        while column < self.columns
            invariant
                column <= self.columns,
                valid_matrix(self@),
                input@.len() == self@.rows,
                dense::finite_before(arithmetic, input@, input@.len() as int),
                products_before(arithmetic, self@, input@, output@, column as int),
            decreases self.columns - column,
        {
            let weights = match self.decode_column(column, arithmetic) {
                Ok(weights) => weights,
                Err(error) => {
                    assert(product_fails(
                        arithmetic,
                        self@,
                        input@,
                        column as int,
                        error@,
                    ));
                    return Err(error);
                },
            };
            proof {
                lemma_column_count(self@, column as int);
            }
            match accumulate(arithmetic, input, &weights) {
                Some(sum) => {
                    assert(column_product(arithmetic, self@, input@, column as int, sum));
                    output.push(sum);
                },
                None => {
                    let error = error::shape_error("quantized matmul produced a non-finite value");
                    assert(column_overflows(arithmetic, self@, input@, column as int));
                    assert(product_fails(
                        arithmetic,
                        self@,
                        input@,
                        column as int,
                        error@,
                    ));
                    return Err(error);
                },
            }
            column += 1;
        }
        Ok(output)
    }

    fn decode_column<T: Copy, A: Arithmetic<T>>(&self, column: usize, arithmetic: &A) -> (result:
        Result<Vec<T>, ModelError>)
        ensures
            valid_matrix(self@),
            column_answer(arithmetic, self@, column as nat, result),
    {
        proof {
            use_type_invariant(self);
        }
        if column >= self.columns {
            return Err(
                error::compared_shape_error(
                    "quantized matrix column ",
                    column as u64,
                    " is outside ",
                    self.columns as u64,
                    " columns",
                ),
            );
        }
        assert(self.bytes.len() == self.bytes@.len());
        proof {
            lemma_column_count(self@, column as int);
        }
        let (per_block, block_bytes) = match blocks::quantized_block_layout(self.value_type.raw()) {
            Some(layout) => layout,
            None => (1, 0),
        };
        let ghost length = column_bytes(self@);
        proof {
            assert(length <= self@.columns * length) by (nonlinear_arith)
                requires
                    self@.columns >= 1,
            ;
        }
        let column_length: usize = (self.rows / per_block) * block_bytes;
        let start: usize = column * column_length;
        let data = &self.bytes.as_slice()[start..start + column_length];
        assert(data@ == column_data(self@, column as int));
        let values: Vec<T> = decode::decode_values(self.value_type, data, arithmetic)?;
        let mut i: usize = 0;
        while i < values.len()
            invariant
                i <= values@.len(),
                valid_matrix(self@),
                column < self@.columns,
                decode::decoded(
                    arithmetic,
                    self@.value_type,
                    column_data(self@, column as int),
                    values@,
                ),
                dense::finite_before(arithmetic, values@, i as int),
            decreases values@.len() - i,
        {
            if !arithmetic.is_finite(values[i]) {
                assert(dense::first_not_finite(arithmetic, values@, i as int));
                assert(column_not_finite::<T, A>(arithmetic, self@, column as int));
                return Err(error::shape_error("quantized matrix decoded a non-finite value"));
            }
            i += 1;
        }
        Ok(values)
    }
}

} // verus!
