//! Products with the quantized matrices of a model.

use vstd::prelude::*;

use crate::model::blocks;
use crate::model::decode;
use crate::model::descriptor;
use crate::model::descriptor::{Descriptor, TensorDescriptor};
use crate::model::error;
use crate::model::error::{ModelError, ModelFault};
use crate::model::index;
use crate::model::index::{GgufModel, ModelSource};
use crate::model::matrix;
use crate::model::matrix::Matrix;
use crate::tensor::arithmetic::Arithmetic;
use crate::tensor::dense;
use crate::text;

verus! {

/// Weight number `count` of a column is the first that is not finite, and is
/// reached with a finite sum.
pub open spec fn weight_stops<T, A: Arithmetic<T>>(
    arithmetic: &A,
    input: Seq<T>,
    weights: Seq<T>,
    count: nat,
) -> bool {
    &&& dense::first_not_finite(arithmetic, weights, count as int)
    &&& exists|sum: T| #[trigger]
        matrix::finite_product(arithmetic, input, weights, count, sum)
}

/// The sum stops being finite with product number `count`, and all weights up
/// to there are finite.
pub open spec fn sum_stops<T, A: Arithmetic<T>>(
    arithmetic: &A,
    input: Seq<T>,
    weights: Seq<T>,
    count: nat,
) -> bool {
    &&& dense::finite_before(arithmetic, weights, (count + 1) as int)
    &&& matrix::product_overflows_at(arithmetic, input, weights, count)
}

/// The product of an input and a column fails, and `fault` says why.
pub open spec fn column_fails<T, A: Arithmetic<T>>(
    arithmetic: &A,
    matrix: Matrix,
    input: Seq<T>,
    column: int,
    fault: ModelFault,
) -> bool {
    exists|weights: Seq<T>, count: nat|
        {
            &&& #[trigger] decode::decoded(
                arithmetic,
                matrix.value_type,
                matrix::column_data(matrix, column),
                weights,
            )
            &&& #[trigger] column_stops(arithmetic, input, weights, count, fault)
        }
}

/// The sum over a column stops with product number `count`, and `fault` says
/// why.
pub open spec fn column_stops<T, A: Arithmetic<T>>(
    arithmetic: &A,
    input: Seq<T>,
    weights: Seq<T>,
    count: nat,
    fault: ModelFault,
) -> bool {
    ||| {
        &&& weight_stops(arithmetic, input, weights, count)
        &&& fault == ModelFault::Shape("quantized matmul decoded a non-finite value"@)
    }
    ||| {
        &&& sum_stops(arithmetic, input, weights, count)
        &&& fault == ModelFault::Shape("quantized matmul produced a non-finite value"@)
    }
}

/// `column` is the first whose product fails, and `fault` says why.
pub open spec fn stored_product_fails<T, A: Arithmetic<T>>(
    arithmetic: &A,
    matrix: Matrix,
    input: Seq<T>,
    column: int,
    fault: ModelFault,
) -> bool {
    &&& 0 <= column < matrix.columns
    &&& exists|output: Seq<T>| #[trigger]
        matrix::products_before(arithmetic, matrix, input, output, column)
    &&& column_fails(arithmetic, matrix, input, column, fault)
}

/// Why a tensor cannot be multiplied with.
pub open spec fn operand_fault(descriptor: Descriptor) -> Option<ModelFault> {
    matrix::storage_fault(descriptor, "quantized matmul rows must be a multiple of "@)
}

/// How a request for a product with a matrix in a file is answered.
pub open spec fn stored_product_answer<T, A: Arithmetic<T>>(
    arithmetic: &A,
    file: Seq<u8>,
    descriptor: Descriptor,
    input: Seq<T>,
    result: Result<Vec<T>, ModelError>,
) -> bool {
    let range = descriptor::range_fault(
        descriptor.byte_offset,
        descriptor.byte_len,
        file.len(),
    );
    let matrix = matrix::matrix_of(file, descriptor);
    if range is Some {
        result matches Err(error) && Some(error@) == range
    } else if matrix.columns == 0 {
        result matches Err(error) && error@ == ModelFault::Shape("quantized column width is zero"@)
    } else {
        match result {
            Ok(output) => matrix::products_before(
                arithmetic,
                matrix,
                input,
                output@,
                matrix.columns as int,
            ),
            Err(error) => exists|column: int| #[trigger]
                stored_product_fails(arithmetic, matrix, input, column, error@),
        }
    }
}

/// Adds up the products of values at equal places, as long as the weights and
/// the sum are finite.
fn accumulate_stored<T: Copy, A: Arithmetic<T>>(
    arithmetic: &A,
    input: &[T],
    weights: &Vec<T>,
) -> (result: Result<T, ModelError>)
    requires
        input@.len() == weights@.len(),
    ensures
        match result {
            Ok(sum) => {
                &&& dense::finite_before(arithmetic, weights@, weights@.len() as int)
                &&& matrix::finite_product(arithmetic, input@, weights@, input@.len(), sum)
            },
            Err(error) => exists|count: nat| #[trigger]
                column_stops(arithmetic, input@, weights@, count, error@),
        },
{
    let mut sum = arithmetic.zero();
    let mut i: usize = 0;
    while i < input.len()
        invariant
            i <= input@.len(),
            input@.len() == weights@.len(),
            dense::finite_before(arithmetic, weights@, i as int),
            matrix::finite_product(arithmetic, input@, weights@, i as nat, sum),
        decreases input@.len() - i,
    {
        if !arithmetic.is_finite(weights[i]) {
            let error = error::shape_error("quantized matmul decoded a non-finite value");
            assert(weight_stops(arithmetic, input@, weights@, i as nat));
            assert(column_stops(arithmetic, input@, weights@, i as nat, error@));
            return Err(error);
        }
        let product = arithmetic.multiply(input[i], weights[i]);
        let next = arithmetic.add(sum, product);
        if !arithmetic.is_finite(next) {
            let error = error::shape_error("quantized matmul produced a non-finite value");
            assert(matrix::product_overflows_at(arithmetic, input@, weights@, i as nat));
            assert(sum_stops(arithmetic, input@, weights@, i as nat));
            assert(column_stops(arithmetic, input@, weights@, i as nat, error@));
            return Err(error);
        }
        assert(matrix::finite_product(arithmetic, input@, weights@, (i + 1) as nat, next));
        sum = next;
        i += 1;
    }
    Ok(sum)
}

/// Multiplies an input with the matrix that a file holds for a tensor.
fn multiply_stored<T: Copy, A: Arithmetic<T>>(
    arithmetic: &A,
    file: &[u8],
    descriptor: &TensorDescriptor,
    length: usize,
    input: &[T],
) -> (result: Result<Vec<T>, ModelError>)
    requires
        descriptor@.shape.len() == 2,
        operand_fault(descriptor@) is None,
        length == descriptor@.byte_len,
        input@.len() == descriptor@.shape[0],
    ensures
        stored_product_answer(arithmetic, file@, descriptor@, input@, result),
{
    let data = descriptor::tensor_range(file, descriptor.byte_offset(), length)?;
    let rows: usize = descriptor.shape()[0];
    let columns: usize = descriptor.shape()[1];
    if columns == 0 {
        return Err(error::shape_error("quantized column width is zero"));
    }
    let ghost stored = matrix::matrix_of(file@, descriptor@);
    let ghost layout = blocks::quantized_layout(descriptor@.value_type)->0;
    proof {
        matrix::lemma_columns(rows as nat, columns as nat, layout);
        assert(matrix::valid_matrix(stored));
        let width = matrix::column_bytes(stored) as int;
        vstd::arithmetic::div_mod::lemma_div_multiples_vanish(width, columns as int);
        vstd::arithmetic::mul::lemma_mul_is_commutative(width, columns as int);
    }
    let column_length: usize = length / columns;
    let value_type = descriptor.value_type();
    let mut output: Vec<T> = Vec::new();
    let mut column: usize = 0;
    while column < columns
        invariant
            column <= columns,
            columns > 0,
            stored == matrix::matrix_of(file@, descriptor@),
            matrix::valid_matrix(stored),
            columns == stored.columns,
            input@.len() == stored.rows,
            column_length == matrix::column_bytes(stored),
            value_type.code() == stored.value_type,
            data@ == stored.bytes,
            descriptor::range_fault(
                descriptor@.byte_offset,
                descriptor@.byte_len,
                file@.len(),
            ) is None,
            matrix::products_before(arithmetic, stored, input@, output@, column as int),
        decreases columns - column,
    {
        assert(data.len() == data@.len());
        proof {
            matrix::lemma_column_count(stored, column as int);
        }
        let start: usize = column * column_length;
        let weights: Vec<T> = match decode::decode_values(
            value_type,
            &data[start..start + column_length],
            arithmetic,
        ) {
            Ok(weights) => weights,
            Err(error) => {
                return Err(error);
            },
        };
        assert(decode::decoded(
            arithmetic,
            stored.value_type,
            matrix::column_data(stored, column as int),
            weights@,
        ));
        match accumulate_stored(arithmetic, input, &weights) {
            Ok(sum) => {
                assert(matrix::column_values(arithmetic, stored, column as int, weights@));
                assert(matrix::column_product(arithmetic, stored, input@, column as int, sum));
                output.push(sum);
            },
            Err(error) => {
                assert(column_fails(arithmetic, stored, input@, column as int, error@));
                assert(stored_product_fails(
                    arithmetic,
                    stored,
                    input@,
                    column as int,
                    error@,
                ));
                return Err(error);
            },
        }
        column += 1;
    }
    Ok(output)
}

/// A tensor that is no matrix.
pub open spec fn operand_rank_fault(shape: Seq<usize>) -> ModelFault {
    ModelFault::Shape(
        "quantized matmul requires a rank-2 matrix, got "@ + text::number_list(
            shape.map_values(|v: usize| v as nat),
        ),
    )
}

/// How a request for a product with a tensor of a model is answered.
pub open spec fn model_product_answer<T, A: Arithmetic<T>>(
    arithmetic: &A,
    descriptor: Descriptor,
    changed: Option<ModelFault>,
    file: Seq<u8>,
    input: Seq<T>,
    result: Result<Vec<T>, ModelError>,
) -> bool {
    if descriptor.shape.len() != 2 {
        result matches Err(error) && error@ == operand_rank_fault(descriptor.shape)
    } else if input.len() != descriptor.shape[0] {
        result matches Err(error) && error@ == matrix::length_fault(
            input.len(),
            descriptor.shape[0] as nat,
        )
    } else {
        ||| result matches Err(error) && matrix::input_refused(arithmetic, input, error@)
        ||| {
            &&& dense::finite_before(arithmetic, input, input.len() as int)
            &&& if operand_fault(descriptor) is Some {
                result matches Err(error) && Some(error@) == operand_fault(descriptor)
            } else if changed is Some {
                result matches Err(error) && Some(error@) == changed
            } else {
                stored_product_answer(arithmetic, file, descriptor, input, result)
            }
        }
    }
}

impl GgufModel {
    /// Computes a row-vector matrix product directly from a quantized matrix
    /// without materializing it.
    ///
    /// The input must have the length of the tensor's first dimension. Each
    /// output column is decoded and dotted against the input row.
    pub fn matmul_f32_quantized<T: Copy, A: Arithmetic<T>>(
        &self,
        name: &str,
        input: &[T],
        source: ModelSource<'_>,
        arithmetic: &A,
    ) -> (result: Result<Vec<T>, ModelError>)
        ensures
            match index::tensor_named(self@, name@) {
                None => result matches Err(error) && error@ == ModelFault::TensorNotFound(name@),
                Some(descriptor) => model_product_answer(
                    arithmetic,
                    descriptor,
                    index::changed_fault(self@, source),
                    source.spec_bytes(),
                    input@,
                    result,
                ),
            },
    {
        let descriptor = match self.tensor(name) {
            None => {
                return Err(ModelError::TensorNotFound(text::owned(name)));
            },
            Some(descriptor) => descriptor,
        };
        if descriptor.shape().len() != 2 {
            return Err(
                error::listed_shape_error(
                    "quantized matmul requires a rank-2 matrix, got ",
                    descriptor.shape(),
                ),
            );
        }
        matrix::check_input(arithmetic, input, descriptor.shape()[0])?;
        let length: usize = matrix::check_storage(
            descriptor,
            "quantized matmul rows must be a multiple of ",
        )?;
        let bytes = self.validated_bytes(source)?;
        multiply_stored(arithmetic, bytes, descriptor, length, input)
    }
}

} // verus!
