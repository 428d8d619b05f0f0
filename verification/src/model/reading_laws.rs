//! What loaded tensors and products come to, if values stand for real numbers.

use vstd::arithmetic::div_mod;
use vstd::prelude::*;

use crate::gguf::anatomy;
use crate::gguf::types::TensorType;
use crate::model::blocks;
use crate::model::decode;
use crate::model::descriptor::Descriptor;
use crate::model::error::ModelError;
use crate::model::index;
use crate::model::index::{GgufModel, ModelSource};
use crate::model::laws;
use crate::model::load;
use crate::model::matrix;
use crate::model::matrix::{Matrix, QuantizedMatrix};
use crate::model::product;
use crate::model::quantized as quantized_matrices;
use crate::model::values;
use crate::tensor::arithmetic::Arithmetic;
use crate::tensor::broadcast_laws;
use crate::tensor::dense;
use crate::tensor::dense::{Contents, Tensor};
use crate::tensor::reals;
use crate::tensor::reals::Reals;

verus! {

/// The types whose weights can be decoded, block by block.
pub open spec fn quantized(code: u32) -> bool {
    code == 2 || code == 3 || 6 <= code <= 8 || 10 <= code <= 15
}

/// The types whose weights can be decoded.
pub open spec fn decodable(code: u32) -> bool {
    quantized(code) || code == 0 || code == 1 || code == 30
}

/// All of `count` weights are finite.
pub open spec fn all_finite(code: u32, data: Seq<u8>, count: nat) -> bool {
    forall|i: int|
        0 <= i < count ==> values::finite_term(#[trigger] blocks::term_at(code, data, i))
}

/// The number that a weight stands for.
pub open spec fn stored_number<T>(n: Reals<T>, code: u32, data: Seq<u8>, i: int) -> real {
    values::term_number(n, blocks::term_at(code, data, i))
}

/// `data` is made up of blocks that hold `count` weights.
pub open spec fn holds_weights(code: u32, data: Seq<u8>, count: nat) -> bool {
    exists|number: nat| #[trigger] is_filled(code, data, count, number)
}

/// `data` is made up of `number` blocks that hold `count` weights.
pub open spec fn is_filled(code: u32, data: Seq<u8>, count: nat, number: nat) -> bool {
    &&& data.len() == number * anatomy::total(anatomy::block_fields(code))
    &&& count == number * anatomy::weights_in_block(code)
}

pub(crate) proof fn lemma_layout(code: u32)
    ensures
        decodable(code) <==> blocks::layout_of(code) is Some,
        quantized(code) <==> blocks::quantized_layout(code) is Some,
        decodable(code) ==> blocks::layout_of(code) == Some(
            (
                anatomy::weights_in_block(code),
                anatomy::total(anatomy::block_fields(code)),
            ),
        ),
        quantized(code) ==> blocks::quantized_layout(code) == blocks::layout_of(code),
        decodable(code) ==> anatomy::weights_in_block(code) > 0 && anatomy::total(
            anatomy::block_fields(code),
        ) > 0,
{
    anatomy::lemma_sizes(code);
    if blocks::layout_of(code) is Some {
        laws::law_layouts_agree(code);
    }
}

proof fn lemma_filled(code: u32, data: Seq<u8>, count: nat)
    requires
        decodable(code),
        holds_weights(code, data, count),
    ensures
        decode::decode_fault(code, data.len()) is None,
        decode::weight_count(code, data.len()) == count,
{
    lemma_layout(code);
    let number = choose|number: nat| #[trigger] is_filled(code, data, count, number);
    let size = anatomy::total(anatomy::block_fields(code));
    div_mod::lemma_mod_multiples_basic(number as int, size as int);
    div_mod::lemma_div_by_multiple(number as int, size as int);
}

proof fn lemma_decoded<T, A: Arithmetic<T>>(
    arithmetic: &A,
    n: Reals<T>,
    code: u32,
    data: Seq<u8>,
    weights: Seq<T>,
)
    requires
        reals::exact(arithmetic, n),
        decode::decoded(arithmetic, code, data, weights),
        all_finite(code, data, weights.len()),
    ensures
        n.all(weights),
        forall|i: int|
            0 <= i < weights.len() ==> n.of(#[trigger] weights[i]) == stored_number(
                n,
                code,
                data,
                i,
            ),
{
    assert forall|i: int| 0 <= i < weights.len() implies n.is(#[trigger] weights[i]) && n.of(
        weights[i],
    ) == stored_number(n, code, data, i) by {
        values::law_weights_are_decoded_to_their_numbers(
            arithmetic,
            n,
            blocks::term_at(code, data, i),
            weights[i],
        );
    }
}

/// Blocks are decoded to the numbers of their weights, one by one.
pub proof fn law_blocks_are_decoded<T: Copy, A: Arithmetic<T>>(
    arithmetic: &A,
    n: Reals<T>,
    value_type: TensorType,
    data: &[u8],
    count: nat,
    result: Result<Vec<T>, ModelError>,
)
    requires
        reals::exact(arithmetic, n),
        decodable(value_type.code()),
        holds_weights(value_type.code(), data@, count),
        all_finite(value_type.code(), data@, count),
        call_ensures(decode::decode_values::<T, A>, (value_type, data, arithmetic), result),
    ensures
        result matches Ok(weights) && {
            &&& weights@.len() == count
            &&& n.all(weights@)
            &&& forall|i: int|
                0 <= i < count ==> n.of(#[trigger] weights@[i]) == stored_number(
                    n,
                    value_type.code(),
                    data@,
                    i,
                )
        },
{
    lemma_filled(value_type.code(), data@, count);
    lemma_decoded(arithmetic, n, value_type.code(), data@, result->Ok_0@);
}

/// A weight that is asked for by its place is the one that is stored there.
pub proof fn law_single_weights_are_decoded<T: Copy, A: Arithmetic<T>>(
    arithmetic: &A,
    n: Reals<T>,
    value_type: TensorType,
    data: &[u8],
    count: nat,
    place: usize,
    result: Result<T, ModelError>,
)
    requires
        reals::exact(arithmetic, n),
        quantized(value_type.code()),
        holds_weights(value_type.code(), data@, count),
        data@.len() <= usize::MAX,
        place < count,
        values::finite_term(blocks::term_at(value_type.code(), data@, place as int)),
        call_ensures(
            decode::quantized_value_at::<T, A>,
            (value_type, data, place, arithmetic),
            result,
        ),
    ensures
        result matches Ok(weight) && n.is(weight) && n.of(weight) == stored_number(
            n,
            value_type.code(),
            data@,
            place as int,
        ),
{
    let code = value_type.code();
    lemma_layout(code);
    let number = choose|number: nat| #[trigger] is_filled(code, data@, count, number);
    let size = anatomy::total(anatomy::block_fields(code));
    let weights = anatomy::weights_in_block(code);
    let block = place as nat / weights;
    assert(block * size + size <= number * size) by (nonlinear_arith)
        requires
            block == place as nat / weights,
            place < number * weights,
            weights > 0,
    ;
    assert(decode::place_fault(code, data@.len(), place as nat) is None);
    values::law_weights_are_decoded_to_their_numbers(
        arithmetic,
        n,
        blocks::term_at(code, data@, place as int),
        result->Ok_0,
    );
}

/// The bytes of a tensor in a file.
pub open spec fn bytes_of(file: Seq<u8>, descriptor: Descriptor) -> Seq<u8> {
    file.subrange(
        descriptor.byte_offset as int,
        (descriptor.byte_offset + descriptor.byte_len) as int,
    )
}

/// A tensor lies inside its file, and is made up of blocks that hold its weights.
pub open spec fn is_stored(file: Seq<u8>, descriptor: Descriptor) -> bool {
    let count = broadcast_laws::volume(descriptor.shape);
    &&& file.len() <= usize::MAX
    &&& descriptor.byte_offset + descriptor.byte_len <= file.len()
    &&& !descriptor.shape.contains(0)
    &&& count <= usize::MAX
    &&& holds_weights(descriptor.value_type, bytes_of(file, descriptor), count)
}

/// A tensor that is loaded has the shape that its file states, and holds the
/// numbers of its weights in the order in which they are stored.
pub proof fn law_loaded_tensors_hold_their_weights<T: Copy, A: Arithmetic<T>>(
    arithmetic: &A,
    n: Reals<T>,
    model: &GgufModel,
    name: &str,
    source: ModelSource<'_>,
    descriptor: Descriptor,
    result: Result<Tensor<T>, ModelError>,
)
    requires
        reals::exact(arithmetic, n),
        call_ensures(
            GgufModel::load_f32::<T, A>,
            (model, name, source, arithmetic),
            result,
        ),
        index::tensor_named(model@, name@) == Some(descriptor),
        index::changed_fault(model@, source) is None,
        decodable(descriptor.value_type),
        is_stored(source.spec_bytes(), descriptor),
        all_finite(
            descriptor.value_type,
            bytes_of(source.spec_bytes(), descriptor),
            broadcast_laws::volume(descriptor.shape),
        ),
    ensures
        result matches Ok(tensor) && {
            &&& tensor@.shape == descriptor.shape
            &&& tensor@.data.len() == broadcast_laws::volume(descriptor.shape)
            &&& n.all(tensor@.data)
            &&& forall|i: int|
                0 <= i < tensor@.data.len() ==> n.of(#[trigger] tensor@.data[i])
                    == stored_number(
                    n,
                    descriptor.value_type,
                    bytes_of(source.spec_bytes(), descriptor),
                    i,
                )
        },
{
    let file = source.spec_bytes();
    let code = descriptor.value_type;
    let data = bytes_of(file, descriptor);
    let count = broadcast_laws::volume(descriptor.shape);
    lemma_layout(code);
    lemma_filled(code, data, count);
    broadcast_laws::lemma_volume(descriptor.shape);
    assert(load::stored_fault(file.len(), descriptor) is None);
    if let Err(error) = result {
        let (contents, at) = choose|contents: Contents<T>, at: int|
            {
                &&& #[trigger] load::stored_contents(arithmetic, file, descriptor, contents)
                &&& #[trigger] dense::first_not_finite(arithmetic, contents.data, at)
            };
        lemma_decoded(arithmetic, n, code, data, contents.data);
        assert(n.is(contents.data[at]));
    } else {
        lemma_decoded(arithmetic, n, code, data, result->Ok_0@.data);
    }
}

/// The sum of the products of an input and of the weights of a column.
pub open spec fn column_sum<T>(n: Reals<T>, matrix: Matrix, input: Seq<T>, column: int) -> real {
    reals::sum(
        |row: int|
            n.of(input[row]) * stored_number(
                n,
                matrix.value_type,
                matrix.bytes,
                column * matrix.rows + row,
            ),
        matrix.rows,
    )
}

proof fn lemma_product<T, A: Arithmetic<T>>(
    arithmetic: &A,
    n: Reals<T>,
    left: Seq<T>,
    right: Seq<T>,
    count: nat,
    value: T,
)
    requires
        reals::exact(arithmetic, n),
        count <= left.len(),
        count <= right.len(),
        n.all(left),
        n.all(right),
        matrix::finite_product(arithmetic, left, right, count, value),
    ensures
        n.is(value),
        n.of(value) == reals::sum(|k: int| n.of(left[k]) * n.of(right[k]), count),
    decreases count,
{
    if count > 0 {
        let last = count - 1;
        let (before, product) = choose|before: T, product: T|
            {
                &&& matrix::finite_product(arithmetic, left, right, last as nat, before)
                &&& call_ensures(A::multiply, (arithmetic, left[last], right[last]), product)
                &&& #[trigger] call_ensures(A::add, (arithmetic, before, product), value)
                &&& call_ensures(A::is_finite, (arithmetic, value), true)
            };
        lemma_product(arithmetic, n, left, right, last as nat, before);
    }
}

/// Sums of numbers do not stop being finite.
proof fn lemma_no_overflow<T, A: Arithmetic<T>>(
    arithmetic: &A,
    n: Reals<T>,
    left: Seq<T>,
    right: Seq<T>,
    count: nat,
)
    requires
        reals::exact(arithmetic, n),
        count < left.len(),
        count < right.len(),
        n.all(left),
        n.all(right),
    ensures
        !matrix::product_overflows_at(arithmetic, left, right, count),
{
    if matrix::product_overflows_at(arithmetic, left, right, count) {
        let (before, product, value) = choose|before: T, product: T, value: T|
            {
                &&& matrix::finite_product(arithmetic, left, right, count, before)
                &&& call_ensures(
                    A::multiply,
                    (arithmetic, left[count as int], right[count as int]),
                    product,
                )
                &&& #[trigger] call_ensures(A::add, (arithmetic, before, product), value)
                &&& call_ensures(A::is_finite, (arithmetic, value), false)
            };
        lemma_product(arithmetic, n, left, right, count, before);
    }
}

/// A matrix with finite weights.
pub open spec fn finite_matrix(matrix: Matrix) -> bool {
    all_finite(matrix.value_type, matrix.bytes, (matrix.columns * matrix.rows) as nat)
}

proof fn lemma_column<T, A: Arithmetic<T>>(
    arithmetic: &A,
    n: Reals<T>,
    matrix: Matrix,
    column: int,
    weights: Seq<T>,
)
    requires
        reals::exact(arithmetic, n),
        matrix::valid_matrix(matrix),
        finite_matrix(matrix),
        0 <= column < matrix.columns,
        decode::decoded(
            arithmetic,
            matrix.value_type,
            matrix::column_data(matrix, column),
            weights,
        ),
    ensures
        weights.len() == matrix.rows,
        n.all(weights),
        forall|row: int|
            0 <= row < matrix.rows ==> n.of(#[trigger] weights[row]) == stored_number(
                n,
                matrix.value_type,
                matrix.bytes,
                column * matrix.rows + row,
            ),
{
    let data = matrix::column_data(matrix, column);
    matrix::lemma_column_count(matrix, column);
    assert forall|row: int| 0 <= row < matrix.rows implies values::finite_term(
        #[trigger] blocks::term_at(matrix.value_type, data, row),
    ) && blocks::term_at(matrix.value_type, data, row) == blocks::term_at(
        matrix.value_type,
        matrix.bytes,
        column * matrix.rows + row,
    ) by {
        laws::law_columns_are_parts_of_their_matrix(matrix, column, row);
        dense::lemma_inside(column, row, matrix.columns as int, matrix.rows as int);
    }
    lemma_decoded(arithmetic, n, matrix.value_type, data, weights);
    assert forall|row: int| 0 <= row < matrix.rows implies n.of(#[trigger] weights[row])
        == stored_number(n, matrix.value_type, matrix.bytes, column * matrix.rows + row) by {
        assert(blocks::term_at(matrix.value_type, data, row) == blocks::term_at(
            matrix.value_type,
            matrix.bytes,
            column * matrix.rows + row,
        ));
    }
}

/// A column of a matrix holds the numbers of its weights.
pub proof fn law_columns_hold_their_weights<T: Copy, A: Arithmetic<T>>(
    arithmetic: &A,
    n: Reals<T>,
    matrix: &QuantizedMatrix,
    column: usize,
    result: Result<Vec<T>, ModelError>,
)
    requires
        reals::exact(arithmetic, n),
        finite_matrix(matrix@),
        call_ensures(QuantizedMatrix::column::<T, A>, (matrix, column, arithmetic), result),
    ensures
        result is Ok <==> column < matrix@.columns,
        result matches Ok(weights) ==> {
            &&& weights@.len() == matrix@.rows
            &&& n.all(weights@)
            &&& forall|row: int|
                0 <= row < matrix@.rows ==> n.of(#[trigger] weights@[row]) == stored_number(
                    n,
                    matrix@.value_type,
                    matrix@.bytes,
                    column * matrix@.rows + row,
                )
        },
{
    if column < matrix@.columns {
        if let Ok(weights) = result {
            lemma_column(arithmetic, n, matrix@, column as int, weights@);
        } else {
            let data = matrix::column_data(matrix@, column as int);
            let (weights, at) = choose|weights: Seq<T>, at: int|
                {
                    &&& #[trigger] decode::decoded(arithmetic, matrix@.value_type, data, weights)
                    &&& #[trigger] dense::first_not_finite(arithmetic, weights, at)
                };
            lemma_column(arithmetic, n, matrix@, column as int, weights);
            assert(n.is(weights[at]));
        }
    }
}

proof fn lemma_output<T, A: Arithmetic<T>>(
    arithmetic: &A,
    n: Reals<T>,
    matrix: Matrix,
    input: Seq<T>,
    column: int,
    value: T,
)
    requires
        reals::exact(arithmetic, n),
        matrix::valid_matrix(matrix),
        finite_matrix(matrix),
        0 <= column < matrix.columns,
        input.len() == matrix.rows,
        n.all(input),
        matrix::column_product(arithmetic, matrix, input, column, value),
    ensures
        n.is(value),
        n.of(value) == column_sum(n, matrix, input, column),
{
    let weights = choose|weights: Seq<T>| #[trigger]
        matrix::column_values(arithmetic, matrix, column, weights) && matrix::finite_product(
            arithmetic,
            input,
            weights,
            matrix.rows,
            value,
        );
    lemma_column(arithmetic, n, matrix, column, weights);
    lemma_product(arithmetic, n, input, weights, matrix.rows, value);
    reals::lemma_same_sum(
        |k: int| n.of(input[k]) * n.of(weights[k]),
        |row: int|
            n.of(input[row]) * stored_number(
                n,
                matrix.value_type,
                matrix.bytes,
                column * matrix.rows + row,
            ),
        matrix.rows,
    );
}

/// A product with a matrix holds, for each column, the sum of the products of the
/// input and of the weights of the column.
pub proof fn law_products_are_sums_over_columns<T: Copy, A: Arithmetic<T>>(
    arithmetic: &A,
    n: Reals<T>,
    matrix: &QuantizedMatrix,
    input: &[T],
    result: Result<Vec<T>, ModelError>,
)
    requires
        reals::exact(arithmetic, n),
        finite_matrix(matrix@),
        n.all(input@),
        call_ensures(QuantizedMatrix::matmul_f32::<T, A>, (matrix, input, arithmetic), result),
    ensures
        result is Ok <==> input@.len() == matrix@.rows,
        result matches Ok(output) ==> {
            &&& output@.len() == matrix@.columns
            &&& forall|column: int|
                0 <= column < matrix@.columns ==> n.is(#[trigger] output@[column]) && n.of(
                    output@[column],
                ) == column_sum(n, matrix@, input@, column)
        },
{
    if input@.len() == matrix@.rows {
        match result {
            Ok(output) => {
                assert forall|column: int| 0 <= column < matrix@.columns implies n.is(
                    #[trigger] output@[column],
                ) && n.of(output@[column]) == column_sum(n, matrix@, input@, column) by {
                    lemma_output(arithmetic, n, matrix@, input@, column, output@[column]);
                }
            },
            Err(error) => {
                if matrix::input_refused(arithmetic, input@, error@) {
                    let at = choose|at: int| #[trigger]
                        dense::first_not_finite(arithmetic, input@, at);
                    assert(n.is(input@[at]));
                } else {
                    let column = choose|column: int| #[trigger]
                        matrix::product_fails(arithmetic, matrix@, input@, column, error@);
                    if matrix::column_not_finite::<T, A>(arithmetic, matrix@, column) {
                        let data = matrix::column_data(matrix@, column);
                        let (weights, at) = choose|weights: Seq<T>, at: int|
                            {
                                &&& #[trigger] decode::decoded(
                                    arithmetic,
                                    matrix@.value_type,
                                    data,
                                    weights,
                                )
                                &&& #[trigger] dense::first_not_finite(arithmetic, weights, at)
                            };
                        lemma_column(arithmetic, n, matrix@, column, weights);
                        assert(n.is(weights[at]));
                    } else {
                        let (weights, count) = choose|weights: Seq<T>, count: nat|
                            {
                                &&& #[trigger] matrix::column_values(
                                    arithmetic,
                                    matrix@,
                                    column,
                                    weights,
                                )
                                &&& #[trigger] matrix::product_overflows_at(
                                    arithmetic,
                                    input@,
                                    weights,
                                    count,
                                )
                            };
                        lemma_column(arithmetic, n, matrix@, column, weights);
                        lemma_no_overflow(arithmetic, n, input@, weights, count);
                    }
                }
            },
        }
    }
}

/// The matrix that a tensor in a file stands for: its first dimension is the length
/// of its columns, and its second the number of them.
pub open spec fn stored_matrix(file: Seq<u8>, descriptor: Descriptor) -> Matrix {
    Matrix {
        rows: descriptor.shape[0] as nat,
        columns: descriptor.shape[1] as nat,
        value_type: descriptor.value_type,
        bytes: bytes_of(file, descriptor),
    }
}

/// A tensor is a matrix whose columns are made up of whole blocks.
pub open spec fn is_stored_matrix(file: Seq<u8>, descriptor: Descriptor) -> bool {
    &&& descriptor.shape.len() == 2
    &&& quantized(descriptor.value_type)
    &&& is_stored(file, descriptor)
    &&& descriptor.shape[0] as nat % anatomy::weights_in_block(descriptor.value_type) == 0
}

pub(crate) proof fn lemma_stored_matrix(file: Seq<u8>, descriptor: Descriptor)
    requires
        is_stored_matrix(file, descriptor),
    ensures
        matrix::storage_fault(descriptor, seq![]) is None,
        forall|text: Seq<char>| #[trigger] matrix::storage_fault(descriptor, text) is None,
        matrix::load_fault(file.len(), descriptor) is None,
        matrix::matrix_of(file, descriptor) == stored_matrix(file, descriptor),
        matrix::valid_matrix(stored_matrix(file, descriptor)),
        descriptor.shape[1] > 0,
        broadcast_laws::volume(descriptor.shape) == descriptor.shape[1] * descriptor.shape[0],
{
    let code = descriptor.value_type;
    let data = bytes_of(file, descriptor);
    let count = broadcast_laws::volume(descriptor.shape);
    lemma_layout(code);
    lemma_filled(code, data, count);
    broadcast_laws::lemma_volume(descriptor.shape);
    dense::lemma_matrix_count(descriptor.shape);
    assert(descriptor.shape.contains(descriptor.shape[1]));
    assert(descriptor.shape.contains(descriptor.shape[0]));
    let rows = descriptor.shape[0] as int;
    let columns = descriptor.shape[1] as int;
    let weights = anatomy::weights_in_block(code) as int;
    let size = anatomy::total(anatomy::block_fields(code)) as int;
    let number = choose|number: nat| #[trigger] is_filled(code, data, count, number);
    let per_column = rows / weights;
    assert(rows == per_column * weights) by (nonlinear_arith)
        requires
            per_column == rows / weights,
            rows % weights == 0,
            weights > 0,
    ;
    assert(columns * rows == rows * columns) by (nonlinear_arith);
    assert(number == columns * per_column) by (nonlinear_arith)
        requires
            number * weights == rows * columns,
            rows == per_column * weights,
            weights > 0,
    ;
    assert(number * size == columns * (per_column * size)) by (nonlinear_arith)
        requires
            number == columns * per_column,
    ;
    assert(per_column * size <= columns * (per_column * size) && columns * (per_column * size) == (
    per_column * size) * columns && columns * (per_column * size) == (columns * per_column) * size
        && (columns * per_column) == per_column * columns) by (nonlinear_arith)
        requires
            columns >= 1,
            per_column >= 0,
            size >= 0,
    ;
    assert(per_column * columns <= number * size) by (nonlinear_arith)
        requires
            number == columns * per_column,
            size >= 1,
            number >= 0,
    ;
}

/// A matrix that is loaded is the one that is stored.
pub proof fn law_loaded_matrices_are_the_stored_ones(
    model: &GgufModel,
    name: &str,
    source: ModelSource<'_>,
    descriptor: Descriptor,
    result: Result<QuantizedMatrix, ModelError>,
)
    requires
        call_ensures(GgufModel::load_quantized, (model, name, source), result),
        index::tensor_named(model@, name@) == Some(descriptor),
        index::changed_fault(model@, source) is None,
        is_stored_matrix(source.spec_bytes(), descriptor),
    ensures
        result matches Ok(matrix) && matrix@ == stored_matrix(source.spec_bytes(), descriptor),
{
    lemma_stored_matrix(source.spec_bytes(), descriptor);
}

/// A product with a matrix in a file holds, for each column, the sum of the
/// products of the input and of the weights of the column.
pub proof fn law_stored_products_are_sums_over_columns<T: Copy, A: Arithmetic<T>>(
    arithmetic: &A,
    n: Reals<T>,
    model: &GgufModel,
    name: &str,
    input: &[T],
    source: ModelSource<'_>,
    descriptor: Descriptor,
    result: Result<Vec<T>, ModelError>,
)
    requires
        reals::exact(arithmetic, n),
        call_ensures(
            GgufModel::matmul_f32_quantized::<T, A>,
            (model, name, input, source, arithmetic),
            result,
        ),
        index::tensor_named(model@, name@) == Some(descriptor),
        index::changed_fault(model@, source) is None,
        is_stored_matrix(source.spec_bytes(), descriptor),
        finite_matrix(stored_matrix(source.spec_bytes(), descriptor)),
        n.all(input@),
    ensures
        result is Ok <==> input@.len() == descriptor.shape[0],
        result matches Ok(output) ==> {
            let matrix = stored_matrix(source.spec_bytes(), descriptor);
            &&& output@.len() == descriptor.shape[1]
            &&& forall|column: int|
                0 <= column < descriptor.shape[1] ==> n.is(#[trigger] output@[column]) && n.of(
                    output@[column],
                ) == column_sum(n, matrix, input@, column)
        },
{
    let file = source.spec_bytes();
    lemma_stored_matrix(file, descriptor);
    let matrix = stored_matrix(file, descriptor);
    if input@.len() == descriptor.shape[0] {
        match result {
            Ok(output) => {
                assert forall|column: int| 0 <= column < matrix.columns implies n.is(
                    #[trigger] output@[column],
                ) && n.of(output@[column]) == column_sum(n, matrix, input@, column) by {
                    lemma_output(arithmetic, n, matrix, input@, column, output@[column]);
                }
            },
            Err(error) => {
                if matrix::input_refused(arithmetic, input@, error@) {
                    let at = choose|at: int| #[trigger]
                        dense::first_not_finite(arithmetic, input@, at);
                    assert(n.is(input@[at]));
                } else {
                    let column = choose|column: int| #[trigger]
                        product::stored_product_fails(arithmetic, matrix, input@, column, error@);
                    let (weights, count) = choose|weights: Seq<T>, count: nat|
                        {
                            &&& #[trigger] decode::decoded(
                                arithmetic,
                                matrix.value_type,
                                matrix::column_data(matrix, column),
                                weights,
                            )
                            &&& #[trigger] product::column_stops(
                                arithmetic,
                                input@,
                                weights,
                                count,
                                error@,
                            )
                        };
                    lemma_column(arithmetic, n, matrix, column, weights);
                    if product::weight_stops(arithmetic, input@, weights, count) {
                        assert(n.is(weights[count as int]));
                    } else {
                        lemma_no_overflow(arithmetic, n, input@, weights, count);
                    }
                }
            },
        }
    }
}

/// Several tensors are loaded as each one is: there is one for each name, in the
/// order of the names.
pub proof fn law_several_tensors_are_loaded_as_each_one_is<T: Copy, A: Arithmetic<T>>(
    arithmetic: &A,
    n: Reals<T>,
    model: &GgufModel,
    names: &[&str],
    source: ModelSource<'_>,
    result: Result<Vec<Tensor<T>>, ModelError>,
    i: int,
    k: int,
)
    requires
        reals::exact(arithmetic, n),
        call_ensures(
            GgufModel::load_f32_many::<T, A>,
            (model, names, source, arithmetic),
            result,
        ),
        result is Ok,
        0 <= i < names@.len(),
    ensures
        result->Ok_0@.len() == names@.len(),
        index::tensor_named(model@, names@[i]@) is Some,
        ({
            let descriptor = index::tensor_named(model@, names@[i]@)->0;
            let tensor = result->Ok_0@[i];
            let data = bytes_of(source.spec_bytes(), descriptor);
            &&& tensor@.shape == descriptor.shape
            &&& 0 <= k < tensor@.data.len() && values::finite_term(
                blocks::term_at(descriptor.value_type, data, k),
            ) ==> n.of(tensor@.data[k]) == stored_number(n, descriptor.value_type, data, k)
        }),
{
    let file = source.spec_bytes();
    let tensors = result->Ok_0@;
    let descriptors = choose|descriptors: Seq<Descriptor>| #[trigger]
        load::resolved(model@, names@, descriptors) && load::decoded_before(
            arithmetic,
            file,
            descriptors,
            names@.len() as int,
            tensors,
        );
    let descriptor = descriptors[i];
    assert(index::tensor_named(model@, names@[i]@) == Some(descriptor));
    assert(load::tensor_answer(arithmetic, file, descriptor, Ok(tensors[i])));
    let data = bytes_of(file, descriptor);
    if 0 <= k < tensors[i]@.data.len() && values::finite_term(
        blocks::term_at(descriptor.value_type, data, k),
    ) {
        values::law_weights_are_decoded_to_their_numbers(
            arithmetic,
            n,
            blocks::term_at(descriptor.value_type, data, k),
            tensors[i]@.data[k],
        );
    }
}

/// Several matrices are loaded as each one is: there is one for each name, in the
/// order of the names.
pub proof fn law_several_matrices_are_loaded_as_each_one_is(
    model: &GgufModel,
    names: &[&str],
    source: ModelSource<'_>,
    result: Result<Vec<QuantizedMatrix>, ModelError>,
    i: int,
)
    requires
        call_ensures(GgufModel::load_quantized_many, (model, names, source), result),
        result is Ok,
        0 <= i < names@.len(),
    ensures
        result->Ok_0@.len() == names@.len(),
        index::tensor_named(model@, names@[i]@) is Some,
        result->Ok_0@[i]@ == stored_matrix(
            source.spec_bytes(),
            index::tensor_named(model@, names@[i]@)->0,
        ),
{
    let file = source.spec_bytes();
    let matrices = result->Ok_0@;
    let descriptors = choose|descriptors: Seq<Descriptor>| #[trigger]
        load::resolved(model@, names@, descriptors) && quantized_matrices::matrices_loaded(
            file,
            descriptors,
            matrices,
        );
    assert(index::tensor_named(model@, names@[i]@) == Some(descriptors[i]));
    assert(quantized_matrices::matrix_loaded(file, descriptors[i], matrices[i]));
}

} // verus!
