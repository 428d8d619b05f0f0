//! What holds of every model.

use vstd::arithmetic::div_mod;
use vstd::arithmetic::mul;
use vstd::arithmetic::power;
use vstd::arithmetic::power2;
use vstd::prelude::*;

use crate::bytes;
use crate::digest;
use crate::gguf::grammar;
use crate::gguf::grammar::Document;
use crate::gguf::laws as gguf_laws;
use crate::gguf::types;
use crate::model::blocks;
use crate::model::decode;
use crate::model::descriptor::Descriptor;
use crate::model::error::{ModelError, ModelFault};
use crate::model::index;
use crate::model::index::ModelSource;
use crate::model::load;
use crate::model::matrix;
use crate::model::matrix::Matrix;
use crate::model::packing;
use crate::model::product;
use crate::model::term;
use crate::model::term::Term;
use crate::tensor::arithmetic::Arithmetic;
use crate::tensor::dense;
use crate::tensor::shape;

verus! {

/// Blocks have as many weights and bytes as the file format says.
pub proof fn law_layouts_agree(code: u32)
    requires
        blocks::layout_of(code) is Some,
    ensures
        types::is_tensor_type(code),
        blocks::layout_of(code) == Some(
            (types::block_size_of(code), types::type_size_of(code)),
        ),
{
}

/// The bytes of every indexed tensor lie inside the file.
pub proof fn law_indexed_tensors_lie_in_the_file(file: Seq<u8>, limit: nat, at: int)
    requires
        index::opened(file, limit) matches Ok(index) && 0 <= at < index.tensors.len(),
    ensures
        ({
            let tensor = index::opened(file, limit)->Ok_0.tensors[at];
            tensor.byte_offset + tensor.byte_len <= file.len()
        }),
{
    let document = grammar::document(index::model_rules(), file)->Ok_0;
    gguf_laws::law_layout(index::model_rules(), file);
    gguf_laws::law_tensor_data_present(index::model_rules(), file, at);
    assert(index::opened(file, limit)->Ok_0.tensors[at] == index::indexed(
        document.tensors[at],
        document.data_offset,
    ));
}

proof fn lemma_found(tensors: Seq<Descriptor>, name: Seq<char>, from: int, at: int)
    requires
        0 <= from <= at < tensors.len(),
        tensors[at].name == name,
        forall|i: int| from <= i < at ==> (#[trigger] tensors[i]).name != name,
    ensures
        index::tensor_from(tensors, name, from) == Some(tensors[at]),
    decreases at - from,
{
    if from < at {
        assert(tensors[from].name != name);
        lemma_found(tensors, name, from + 1, at);
    }
}

/// Every indexed tensor is found by its name.
pub proof fn law_names_find_their_tensors(file: Seq<u8>, limit: nat, at: int)
    requires
        index::opened(file, limit) matches Ok(index) && 0 <= at < index.tensors.len(),
    ensures
        ({
            let index = index::opened(file, limit)->Ok_0;
            index::tensor_named(index, index.tensors[at].name) == Some(index.tensors[at])
        }),
{
    let document = grammar::document(index::model_rules(), file)->Ok_0;
    let tensors = index::opened(file, limit)->Ok_0.tensors;
    gguf_laws::law_layout(index::model_rules(), file);
    assert forall|i: int| 0 <= i < at implies (#[trigger] tensors[i]).name != tensors[at].name by {
        assert(document.tensors[i].name != document.tensors[at].name);
    }
    lemma_found(tensors, tensors[at].name, 0, at);
}

/// A model is read from the file that was indexed, and from no file with
/// another digest.
pub proof fn law_models_are_bound_to_their_content(
    file: Seq<u8>,
    limit: nat,
    source: ModelSource,
)
    requires
        index::opened(file, limit) is Ok,
        source is Bytes,
    ensures
        source.spec_bytes() == file ==> index::changed_fault(
            index::opened(file, limit)->Ok_0,
            source,
        ) is None,
        digest::sha256_of(source.spec_bytes())@ != digest::sha256_of(file)@
            ==> index::changed_fault(index::opened(file, limit)->Ok_0, source) == Some(
            ModelFault::ContentChanged,
        ),
{
}

proof fn lemma_whole_blocks(shape: Seq<u64>, size: nat)
    requires
        size > 0,
        grammar::row_length(shape) % size == 0,
    ensures
        grammar::element_count(shape) % size == 0,
    decreases shape.len(),
{
    if shape.len() == 1 {
        assert(shape.drop_last() =~= seq![]);
        reveal_with_fuel(grammar::element_count, 2);
        assert(grammar::element_count(shape) == 1 * shape[0] as nat);
    } else if shape.len() > 1 {
        let outer = shape.drop_last();
        lemma_whole_blocks(outer, size);
        let count = grammar::element_count(outer) as int;
        let last = shape.last() as int;
        div_mod::lemma_fundamental_div_mod(count, size as int);
        let blocks = count / size as int;
        assert(count * last == (blocks * last) * size) by (nonlinear_arith)
            requires
                count == size * blocks,
        ;
        div_mod::lemma_mod_multiples_basic(blocks * last, size as int);
    }
}

proof fn lemma_same_count(shape: Seq<u64>, count: nat)
    requires
        count <= shape.len(),
        index::dimension_fault(shape, count) is None,
    ensures
        shape::element_count_of(
            shape.take(count as int).map_values(|dimension: u64| dimension as usize),
        ) == grammar::element_count(shape.take(count as int)),
    decreases count,
{
    let dimensions = shape.take(count as int);
    let sizes = dimensions.map_values(|dimension: u64| dimension as usize);
    if count > 0 {
        lemma_same_count(shape, (count - 1) as nat);
        let fewer = shape.take(count - 1);
        assert(dimensions.drop_last() =~= fewer);
        assert(sizes.drop_last() =~= fewer.map_values(|dimension: u64| dimension as usize));
        assert(sizes.last() == shape[count - 1]);
    }
}

proof fn lemma_no_tensor_fault(document: Document, count: nat, at: int)
    requires
        0 <= at < count,
        index::tensors_fault(document, count) is None,
    ensures
        index::tensor_fault(document.tensors[at], document.data_size) is None,
    decreases count,
{
    if at < count - 1 {
        lemma_no_tensor_fault(document, (count - 1) as nat, at);
    }
}

proof fn lemma_all_dimensions_fit(shape: Seq<u64>, count: nat, at: int)
    requires
        0 <= at < count,
        index::dimension_fault(shape, count) is None,
    ensures
        shape[at] <= usize::MAX,
    decreases count,
{
    if at < count - 1 {
        lemma_all_dimensions_fit(shape, (count - 1) as nat, at);
    }
}

/// Every indexed tensor of a supported type that this machine can count has
/// weights, one for each element: loading it can fail only for a weight that
/// is not finite.
pub proof fn law_indexed_tensors_decode(file: Seq<u8>, limit: nat, at: int)
    requires
        file.len() <= usize::MAX,
        index::opened(file, limit) matches Ok(index) && 0 <= at < index.tensors.len()
            && blocks::layout_of(index.tensors[at].value_type) is Some && shape::element_count_of(
            index.tensors[at].shape,
        ) <= usize::MAX,
    ensures
        ({
            let tensor = index::opened(file, limit)->Ok_0.tensors[at];
            let count = decode::weight_count(tensor.value_type, tensor.byte_len);
            &&& load::stored_fault(file.len(), tensor) is None
            &&& count == shape::element_count_of(tensor.shape)
            &&& dense::length_fault(tensor.shape, count) is None
        }),
{
    let document = grammar::document(index::model_rules(), file)->Ok_0;
    let row = document.tensors[at];
    let tensor = index::opened(file, limit)->Ok_0.tensors[at];
    law_indexed_tensors_lie_in_the_file(file, limit, at);
    gguf_laws::law_layout(index::model_rules(), file);
    assert(gguf_laws::tensor_placed(document.tensors, document.alignment, at));
    law_layouts_agree(row.value_type);
    lemma_no_tensor_fault(document, document.tensors.len(), at);
    lemma_same_count(row.shape, row.shape.len());
    assert(row.shape.take(row.shape.len() as int) =~= row.shape);
    assert(tensor.shape == row.shape.map_values(|dimension: u64| dimension as usize));
    let values = types::block_size_of(row.value_type);
    let size = types::type_size_of(row.value_type);
    let elements = grammar::element_count(row.shape);
    lemma_whole_blocks(row.shape, values);
    let blocks = elements / values;
    div_mod::lemma_fundamental_div_mod(elements as int, values as int);
    assert(elements == blocks * values) by (nonlinear_arith)
        requires
            elements == values * blocks,
    ;
    div_mod::lemma_mod_multiples_basic(blocks as int, size as int);
    div_mod::lemma_div_multiples_vanish(blocks as int, size as int);
    mul::lemma_mul_is_commutative(blocks as int, size as int);
    lemma_indexed_dimensions(file, limit, at);
}

/// No dimension of an indexed tensor is zero.
proof fn lemma_indexed_dimensions(file: Seq<u8>, limit: nat, at: int)
    requires
        index::opened(file, limit) matches Ok(index) && 0 <= at < index.tensors.len(),
    ensures
        shape::nonzero(index::opened(file, limit)->Ok_0.tensors[at].shape),
{
    let document = grammar::document(index::model_rules(), file)->Ok_0;
    let row = document.tensors[at];
    let tensor = index::opened(file, limit)->Ok_0.tensors[at];
    lemma_no_tensor_fault(document, document.tensors.len(), at);
    assert(tensor.shape == row.shape.map_values(|dimension: u64| dimension as usize));
    assert forall|i: int| 0 <= i < tensor.shape.len() implies tensor.shape[i] != 0 by {
        lemma_all_dimensions_fit(row.shape, row.shape.len(), i);
        assert(row.shape.contains(row.shape[i]));
    }
}

/// A byte is the same in a part of some data.
proof fn lemma_same(data: Seq<u8>, start: int, end: int, at: int)
    requires
        0 <= start <= at < end <= data.len(),
    ensures
        data[at] == data.subrange(start, end)[at - start],
{
}

/// A half-precision number is the same in a part of some data.
proof fn lemma_same_half(data: Seq<u8>, start: int, end: int, at: int)
    requires
        0 <= start <= at,
        at + 2 <= end <= data.len(),
    ensures
        blocks::half_at(data, at) == blocks::half_at(data.subrange(start, end), at - start),
{
    lemma_same(data, start, end, at);
    lemma_same(data, start, end, at + 1);
}

proof fn lemma_q4_0_moves(data: Seq<u8>, start: int, end: int, at: int, offset: int)
    requires
        0 <= start <= at,
        at + 18 <= end <= data.len(),
        0 <= offset < 32,
    ensures
        blocks::q4_0_at(data, at, offset) == blocks::q4_0_at(
            data.subrange(start, end),
            at - start,
            offset,
        ),
{
    lemma_same_half(data, start, end, at);
    lemma_same(data, start, end, at + 2 + offset % 16);
}

proof fn lemma_q4_1_moves(data: Seq<u8>, start: int, end: int, at: int, offset: int)
    requires
        0 <= start <= at,
        at + 20 <= end <= data.len(),
        0 <= offset < 32,
    ensures
        blocks::q4_1_at(data, at, offset) == blocks::q4_1_at(
            data.subrange(start, end),
            at - start,
            offset,
        ),
{
    lemma_same_half(data, start, end, at);
    lemma_same_half(data, start, end, at + 2);
    lemma_same(data, start, end, at + 4 + offset % 16);
}

proof fn lemma_q5_0_moves(data: Seq<u8>, start: int, end: int, at: int, offset: int)
    requires
        0 <= start <= at,
        at + 22 <= end <= data.len(),
        0 <= offset < 32,
    ensures
        blocks::q5_0_at(data, at, offset) == blocks::q5_0_at(
            data.subrange(start, end),
            at - start,
            offset,
        ),
{
    lemma_same_half(data, start, end, at);
    lemma_same(data, start, end, at + 6 + offset % 16);
    lemma_same(data, start, end, at + 2 + offset / 8);
}

proof fn lemma_q5_1_moves(data: Seq<u8>, start: int, end: int, at: int, offset: int)
    requires
        0 <= start <= at,
        at + 24 <= end <= data.len(),
        0 <= offset < 32,
    ensures
        blocks::q5_1_at(data, at, offset) == blocks::q5_1_at(
            data.subrange(start, end),
            at - start,
            offset,
        ),
{
    lemma_same_half(data, start, end, at);
    lemma_same_half(data, start, end, at + 2);
    lemma_same(data, start, end, at + 8 + offset % 16);
    lemma_same(data, start, end, at + 4 + offset / 8);
}

proof fn lemma_q8_0_moves(data: Seq<u8>, start: int, end: int, at: int, offset: int)
    requires
        0 <= start <= at,
        at + 34 <= end <= data.len(),
        0 <= offset < 32,
    ensures
        blocks::q8_0_at(data, at, offset) == blocks::q8_0_at(
            data.subrange(start, end),
            at - start,
            offset,
        ),
{
    lemma_same_half(data, start, end, at);
    lemma_same(data, start, end, at + 2 + offset);
}

proof fn lemma_q2_k_moves(data: Seq<u8>, start: int, end: int, at: int, offset: int)
    requires
        0 <= start <= at,
        at + 84 <= end <= data.len(),
        0 <= offset < 256,
    ensures
        blocks::q2_k_at(data, at, offset) == blocks::q2_k_at(
            data.subrange(start, end),
            at - start,
            offset,
        ),
{
    lemma_same_half(data, start, end, at + 80);
    lemma_same_half(data, start, end, at + 82);
    lemma_same(data, start, end, at + offset / 16);
    lemma_same(
        data,
        start,
        end,
        at + 16 + (offset / 16 / 8) * 32 + (offset / 16 % 2) * 16 + offset % 16,
    );
}

proof fn lemma_q3_k_moves(data: Seq<u8>, start: int, end: int, at: int, offset: int)
    requires
        0 <= start <= at,
        at + 110 <= end <= data.len(),
        0 <= offset < 256,
    ensures
        blocks::q3_k_at(data, at, offset) == blocks::q3_k_at(
            data.subrange(start, end),
            at - start,
            offset,
        ),
{
    lemma_same_half(data, start, end, at + 108);
    lemma_same(data, start, end, at + 96 + offset / 16 % 8);
    lemma_same(data, start, end, at + 104 + offset / 16 / 4);
    lemma_same(
        data,
        start,
        end,
        at + 32 + (offset / 16 / 8) * 32 + ((offset / 16 % 2) * 16 + offset % 16),
    );
    lemma_same(data, start, end, at + (offset / 16 % 2) * 16 + offset % 16);
}

proof fn lemma_q6_k_moves(data: Seq<u8>, start: int, end: int, at: int, offset: int)
    requires
        0 <= start <= at,
        at + 210 <= end <= data.len(),
        0 <= offset < 256,
    ensures
        blocks::q6_k_at(data, at, offset) == blocks::q6_k_at(
            data.subrange(start, end),
            at - start,
            offset,
        ),
{
    lemma_same_half(data, start, end, at + 208);
    lemma_same(
        data,
        start,
        end,
        at + (offset / 128) * 64 + (((offset % 128) / 32) % 2) * 32 + offset % 32,
    );
    lemma_same(data, start, end, at + 128 + (offset / 128) * 32 + offset % 32);
    lemma_same(
        data,
        start,
        end,
        at + 192 + (offset / 128) * 8 + ((offset % 128) / 32) * 2 + offset % 32 / 16,
    );
}

proof fn lemma_k_scales_move(data: Seq<u8>, start: int, end: int, at: int, group: int)
    requires
        0 <= start <= at,
        at + 12 <= end <= data.len(),
        0 <= group < 8,
    ensures
        blocks::k_scale(data, at, group) == blocks::k_scale(
            data.subrange(start, end),
            at - start,
            group,
        ),
        blocks::k_minimum(data, at, group) == blocks::k_minimum(
            data.subrange(start, end),
            at - start,
            group,
        ),
{
    lemma_same(data, start, end, at + group);
    lemma_same(data, start, end, at + group + 4);
    if group >= 4 {
        lemma_same(data, start, end, at + group - 4);
    }
}

proof fn lemma_q4_k_moves(data: Seq<u8>, start: int, end: int, at: int, offset: int)
    requires
        0 <= start <= at,
        at + 144 <= end <= data.len(),
        0 <= offset < 256,
    ensures
        blocks::q4_k_at(data, at, offset) == blocks::q4_k_at(
            data.subrange(start, end),
            at - start,
            offset,
        ),
{
    lemma_same_half(data, start, end, at);
    lemma_same_half(data, start, end, at + 2);
    lemma_same(data, start, end, at + 16 + (offset / 32 / 2) * 32 + offset % 32);
    lemma_k_scales_move(data, start, end, at + 4, offset / 32);
}

proof fn lemma_q5_k_moves(data: Seq<u8>, start: int, end: int, at: int, offset: int)
    requires
        0 <= start <= at,
        at + 176 <= end <= data.len(),
        0 <= offset < 256,
    ensures
        blocks::q5_k_at(data, at, offset) == blocks::q5_k_at(
            data.subrange(start, end),
            at - start,
            offset,
        ),
{
    lemma_same_half(data, start, end, at);
    lemma_same_half(data, start, end, at + 2);
    lemma_same(data, start, end, at + 48 + (offset / 32 / 2) * 32 + offset % 32);
    lemma_same(data, start, end, at + 16 + offset % 32);
    lemma_k_scales_move(data, start, end, at + 4, offset / 32);
}

proof fn lemma_q8_k_moves(data: Seq<u8>, start: int, end: int, at: int, offset: int)
    requires
        0 <= start <= at,
        at + 292 <= end <= data.len(),
        0 <= offset < 256,
    ensures
        blocks::q8_k_at(data, at, offset) == blocks::q8_k_at(
            data.subrange(start, end),
            at - start,
            offset,
        ),
{
    lemma_same(data, start, end, at + 4 + offset);
    assert(data.subrange(start, end).subrange(at - start, at - start + 4) =~= data.subrange(
        at,
        at + 4,
    ));
}

/// A block reads the same wherever its bytes lie.
proof fn lemma_block_moves(
    code: u32,
    data: Seq<u8>,
    start: int,
    end: int,
    at: int,
    offset: int,
)
    requires
        blocks::quantized_layout(code) matches Some(layout) && 0 <= start <= at && at + layout.1
            <= end && end <= data.len() && 0 <= offset < layout.0,
    ensures
        blocks::block_term(code, data, at, offset) == blocks::block_term(
            code,
            data.subrange(start, end),
            at - start,
            offset,
        ),
{
    reveal(blocks::block_term);
    if code == 2 {
        lemma_q4_0_moves(data, start, end, at, offset);
    } else if code == 3 {
        lemma_q4_1_moves(data, start, end, at, offset);
    } else if code == 6 {
        lemma_q5_0_moves(data, start, end, at, offset);
    } else if code == 7 {
        lemma_q5_1_moves(data, start, end, at, offset);
    } else if code == 8 {
        lemma_q8_0_moves(data, start, end, at, offset);
    } else if code == 10 {
        lemma_q2_k_moves(data, start, end, at, offset);
    } else if code == 11 {
        lemma_q3_k_moves(data, start, end, at, offset);
    } else if code == 12 {
        lemma_q4_k_moves(data, start, end, at, offset);
    } else if code == 13 {
        lemma_q5_k_moves(data, start, end, at, offset);
    } else if code == 14 {
        lemma_q6_k_moves(data, start, end, at, offset);
    } else {
        lemma_q8_k_moves(data, start, end, at, offset);
    }
}

/// The weights of a column are those that the whole matrix has there.
pub proof fn law_columns_are_parts_of_their_matrix(matrix: Matrix, column: int, row: int)
    requires
        matrix::valid_matrix(matrix),
        0 <= column < matrix.columns,
        0 <= row < matrix.rows,
    ensures
        blocks::term_at(matrix.value_type, matrix.bytes, column * matrix.rows + row)
            == blocks::term_at(matrix.value_type, matrix::column_data(matrix, column), row),
{
    let layout = blocks::quantized_layout(matrix.value_type)->0;
    let values = layout.0 as int;
    let size = layout.1 as int;
    let rows = matrix.rows as int;
    let per_column = rows / values;
    let length = matrix::column_bytes(matrix) as int;
    assert(blocks::layout_of(matrix.value_type) == Some(layout));
    matrix::lemma_column_count(matrix, column);
    div_mod::lemma_fundamental_div_mod(rows, values);
    div_mod::lemma_fundamental_div_mod(row, values);
    let block = row / values;
    let offset = row % values;
    let index = column * rows + row;
    assert(index == (column * per_column + block) * values + offset) by (nonlinear_arith)
        requires
            index == column * rows + row,
            rows == values * per_column,
            row == values * block + offset,
    ;
    assert(0 <= column * per_column) by (nonlinear_arith)
        requires
            0 <= column,
            0 <= per_column,
    ;
    dense::lemma_split(column * per_column + block, offset, values);
    assert(block < per_column) by (nonlinear_arith)
        requires
            row < rows,
            rows == values * per_column,
            row == values * block + offset,
            0 <= offset,
            values > 0,
    ;
    let start = column * length;
    assert((column * per_column + block) * size == start + block * size) by (nonlinear_arith)
        requires
            start == column * length,
            length == per_column * size,
    ;
    assert(0 <= block * size && block * size + size <= length) by (nonlinear_arith)
        requires
            0 <= block < per_column,
            length == per_column * size,
            size > 0,
    ;
    lemma_block_moves(
        matrix.value_type,
        matrix.bytes,
        start,
        start + length,
        start + block * size,
        offset,
    );
}

proof fn lemma_digits_bound(digits: Seq<u32>, base: nat)
    requires
        base > 0,
        packing::all_below(digits, base),
    ensures
        packing::digits_value(digits, base) < power::pow(base as int, digits.len()),
        power::pow(base as int, digits.len()) > 0,
    decreases digits.len(),
{
    power::lemma_pow_positive(base as int, digits.len());
    if digits.len() == 0 {
        reveal(power::pow);
    } else {
        let fewer = digits.drop_last();
        assert(packing::all_below(fewer, base)) by {
            assert forall|i: int| 0 <= i < fewer.len() implies (#[trigger] fewer[i]) < base by {
                assert(digits[i] < base);
            }
        }
        lemma_digits_bound(fewer, base);
        let unit = power::pow(base as int, fewer.len());
        reveal(power::pow);
        assert(power::pow(base as int, digits.len()) == base * unit);
        let last = digits.last() as int;
        assert(digits[digits.len() - 1] < base);
        assert(last * unit + unit <= base * unit && 0 <= last * unit) by (nonlinear_arith)
            requires
                0 <= last < base,
                0 < unit,
        ;
    }
}

/// Each digit of a number can be read off it.
proof fn lemma_digit(digits: Seq<u32>, base: nat, at: int)
    requires
        base > 0,
        packing::all_below(digits, base),
        0 <= at < digits.len(),
    ensures
        (packing::digits_value(digits, base) as int / power::pow(base as int, at as nat))
            % base as int == digits[at],
    decreases digits.len(),
{
    let fewer = digits.drop_last();
    assert(packing::all_below(fewer, base)) by {
        assert forall|i: int| 0 <= i < fewer.len() implies (#[trigger] fewer[i]) < base by {
            assert(digits[i] < base);
        }
    }
    lemma_digits_bound(fewer, base);
    let low = packing::digits_value(fewer, base) as int;
    let unit = power::pow(base as int, fewer.len());
    let last = digits.last() as int;
    let value = packing::digits_value(digits, base) as int;
    assert(last * unit >= 0) by (nonlinear_arith)
        requires
            last >= 0,
            unit > 0,
    ;
    assert(value == low + last * unit);
    if at == digits.len() - 1 {
        assert(digits[at] < base);
        div_mod::lemma_fundamental_div_mod_converse(value, unit, last, low);
        div_mod::lemma_small_mod(last as nat, base);
    } else {
        lemma_digit(fewer, base, at);
        let step = power::pow(base as int, at as nat);
        power::lemma_pow_positive(base as int, at as nat);
        let rest = (fewer.len() - at - 1) as nat;
        power::lemma_pow_adds(base as int, at as nat, rest + 1);
        assert(at as nat + (rest + 1) == fewer.len());
        let outer = power::pow(base as int, rest);
        reveal(power::pow);
        assert(power::pow(base as int, rest + 1) == base * outer);
        assert(unit == step * (base * outer));
        let b = base as int;
        assert(last * unit == step * ((last * outer) * b)) by (nonlinear_arith)
            requires
                unit == step * (b * outer),
        ;
        let multiple = (last * outer) * b;
        div_mod::lemma_hoist_over_denominator(low, multiple, step as nat);
        assert(value == low + multiple * step) by (nonlinear_arith)
            requires
                value == low + step * multiple,
        ;
        assert(value / step == low / step + multiple);
        div_mod::lemma_mod_multiples_vanish(last * outer, low / step, b);
        assert((b * (last * outer) + low / step) % b == (low / step) % b);
        assert(multiple == b * (last * outer)) by (nonlinear_arith)
            requires
                multiple == (last * outer) * b,
        ;
    }
}

/// Packed numbers can be read back.
pub proof fn law_packed_numbers_can_be_read_back(
    words: Seq<u32>,
    numbers: Seq<u32>,
    bits: nat,
    at: int,
)
    requires
        packing::holds(words, numbers, bits),
        packing::all_below(numbers, power2::pow2(bits)),
        0 <= at < numbers.len(),
    ensures
        (packing::digits_value(words, 4_294_967_296) as int / power::pow(
            power2::pow2(bits) as int,
            at as nat,
        )) % power2::pow2(bits) as int == numbers[at],
{
    power2::lemma_pow2_pos(bits);
    lemma_digit(numbers, power2::pow2(bits), at);
}

/// Numbers are packed into words in one way only.
pub proof fn law_packing_is_unique(
    words: Seq<u32>,
    others: Seq<u32>,
    numbers: Seq<u32>,
    bits: nat,
)
    requires
        packing::holds(words, numbers, bits),
        packing::holds(others, numbers, bits),
    ensures
        words == others,
{
    assert(packing::all_below(words, 4_294_967_296));
    assert(packing::all_below(others, 4_294_967_296));
    assert forall|i: int| 0 <= i < words.len() implies words[i] == others[i] by {
        lemma_digit(words, 4_294_967_296, i);
        lemma_digit(others, 4_294_967_296, i);
    }
    assert(words =~= others);
}

/// The operations that weights are computed with yield one result for given
/// numbers.
pub open spec fn repeatable<T, A: Arithmetic<T>>(arithmetic: &A) -> bool {
    &&& forall|bits: u32, x: T, y: T| #[trigger]
        call_ensures(A::from_bits, (arithmetic, bits), x) && #[trigger] call_ensures(
            A::from_bits,
            (arithmetic, bits),
            y,
        ) ==> x == y
    &&& forall|integer: i32, x: T, y: T| #[trigger]
        call_ensures(A::from_integer, (arithmetic, integer), x) && #[trigger] call_ensures(
            A::from_integer,
            (arithmetic, integer),
            y,
        ) ==> x == y
    &&& forall|a: T, b: T, x: T, y: T| #[trigger]
        call_ensures(A::multiply, (arithmetic, a, b), x) && #[trigger] call_ensures(
            A::multiply,
            (arithmetic, a, b),
            y,
        ) ==> x == y
    &&& forall|a: T, b: T, x: T, y: T| #[trigger]
        call_ensures(A::add, (arithmetic, a, b), x) && #[trigger] call_ensures(
            A::add,
            (arithmetic, a, b),
            y,
        ) ==> x == y
    &&& forall|a: T, b: T, x: T, y: T| #[trigger]
        call_ensures(A::subtract, (arithmetic, a, b), x) && #[trigger] call_ensures(
            A::subtract,
            (arithmetic, a, b),
            y,
        ) ==> x == y
}

/// A stored weight stands for one value.
proof fn lemma_one_value<T, A: Arithmetic<T>>(arithmetic: &A, term: Term, x: T, y: T)
    requires
        repeatable(arithmetic),
        term::term_value(arithmetic, term, x),
        term::term_value(arithmetic, term, y),
    ensures
        x == y,
{
    reveal(term::term_value);
}

/// The number of weights in a matrix.
proof fn lemma_matrix_weights(matrix: Matrix)
    requires
        matrix::valid_matrix(matrix),
    ensures
        decode::weight_count(matrix.value_type, matrix.bytes.len()) == matrix.columns * matrix.rows,
{
    let layout = blocks::quantized_layout(matrix.value_type)->0;
    let values = layout.0 as int;
    let size = layout.1 as int;
    let rows = matrix.rows as int;
    let columns = matrix.columns as int;
    let per_column = rows / values;
    assert(blocks::layout_of(matrix.value_type) == Some(layout));
    div_mod::lemma_fundamental_div_mod(rows, values);
    assert(matrix.bytes.len() == (columns * per_column) * size) by (nonlinear_arith)
        requires
            matrix.bytes.len() == columns * (per_column * size),
    ;
    div_mod::lemma_div_multiples_vanish(columns * per_column, size);
    mul::lemma_mul_is_commutative(columns * per_column, size);
    assert((columns * per_column) * values == columns * rows) by (nonlinear_arith)
        requires
            rows == values * per_column,
    ;
}

/// A product that is computed directly from a quantized matrix is the product
/// with the weights that the matrix is materialized to, if operations are
/// repeatable.
pub proof fn law_direct_products_match_materialized_ones<T, A: Arithmetic<T>>(
    arithmetic: &A,
    matrix: Matrix,
    weights: Seq<T>,
    input: Seq<T>,
    column: int,
    product: T,
)
    requires
        repeatable(arithmetic),
        matrix::valid_matrix(matrix),
        0 <= column < matrix.columns,
        decode::decoded(arithmetic, matrix.value_type, matrix.bytes, weights),
        matrix::column_product(arithmetic, matrix, input, column, product),
    ensures
        matrix::finite_product(
            arithmetic,
            input,
            weights.subrange(column * matrix.rows, column * matrix.rows + matrix.rows),
            matrix.rows,
            product,
        ),
{
    let rows = matrix.rows as int;
    let columns = matrix.columns as int;
    let start = column * rows;
    lemma_matrix_weights(matrix);
    matrix::lemma_column_count(matrix, column);
    assert(0 <= start && start + rows <= columns * rows) by (nonlinear_arith)
        requires
            start == column * rows,
            0 <= column < columns,
            0 <= rows,
    ;
    let direct = choose|direct: Seq<T>| #[trigger]
        matrix::column_values(arithmetic, matrix, column, direct) && matrix::finite_product(
            arithmetic,
            input,
            direct,
            matrix.rows,
            product,
        );
    let part = weights.subrange(start, start + rows);
    assert forall|row: int| 0 <= row < rows implies direct[row] == part[row] by {
        law_columns_are_parts_of_their_matrix(matrix, column, row);
        lemma_one_value(
            arithmetic,
            blocks::term_at(matrix.value_type, matrix.bytes, start + row),
            weights[start + row],
            direct[row],
        );
    }
    assert(direct =~= part);
}

/// Products start from one value, and no value is both finite and not.
pub open spec fn decisive<T, A: Arithmetic<T>>(arithmetic: &A) -> bool {
    &&& forall|x: T, y: T| #[trigger]
        call_ensures(A::zero, (arithmetic,), x) && #[trigger] call_ensures(
            A::zero,
            (arithmetic,),
            y,
        ) ==> x == y
    &&& forall|value: T|
        !(#[trigger] call_ensures(A::is_finite, (arithmetic, value), true) && #[trigger] call_ensures(
            A::is_finite,
            (arithmetic, value),
            false,
        ))
}

/// Stored bytes decode to one sequence of weights.
proof fn lemma_one_decoding<T, A: Arithmetic<T>>(
    arithmetic: &A,
    code: u32,
    data: Seq<u8>,
    x: Seq<T>,
    y: Seq<T>,
)
    requires
        repeatable(arithmetic),
        decode::decoded(arithmetic, code, data, x),
        decode::decoded(arithmetic, code, data, y),
    ensures
        x == y,
{
    assert forall|i: int| 0 <= i < x.len() implies x[i] == y[i] by {
        lemma_one_value(arithmetic, blocks::term_at(code, data, i), x[i], y[i]);
    }
    assert(x =~= y);
}

/// The sum of the first products is one value.
proof fn lemma_one_product<T, A: Arithmetic<T>>(
    arithmetic: &A,
    left: Seq<T>,
    right: Seq<T>,
    count: nat,
    x: T,
    y: T,
)
    requires
        repeatable(arithmetic),
        decisive(arithmetic),
        matrix::finite_product(arithmetic, left, right, count, x),
        matrix::finite_product(arithmetic, left, right, count, y),
    ensures
        x == y,
    decreases count,
{
    if count > 0 {
        let last = count - 1;
        let (a, p) = choose|a: T, p: T|
            {
                &&& matrix::finite_product(arithmetic, left, right, last as nat, a)
                &&& call_ensures(A::multiply, (arithmetic, left[last], right[last]), p)
                &&& #[trigger] call_ensures(A::add, (arithmetic, a, p), x)
                &&& call_ensures(A::is_finite, (arithmetic, x), true)
            };
        let (b, q) = choose|b: T, q: T|
            {
                &&& matrix::finite_product(arithmetic, left, right, last as nat, b)
                &&& call_ensures(A::multiply, (arithmetic, left[last], right[last]), q)
                &&& #[trigger] call_ensures(A::add, (arithmetic, b, q), y)
                &&& call_ensures(A::is_finite, (arithmetic, y), true)
            };
        lemma_one_product(arithmetic, left, right, last as nat, a, b);
    }
}

/// A sum of products that is finite to its end does not stop being finite
/// before.
proof fn lemma_no_overflow<T, A: Arithmetic<T>>(
    arithmetic: &A,
    left: Seq<T>,
    right: Seq<T>,
    total: nat,
    value: T,
    count: nat,
)
    requires
        repeatable(arithmetic),
        decisive(arithmetic),
        matrix::finite_product(arithmetic, left, right, total, value),
        count < total,
    ensures
        !matrix::product_overflows_at(arithmetic, left, right, count),
    decreases total,
{
    let last = total - 1;
    let (before, product) = choose|before: T, product: T|
        {
            &&& matrix::finite_product(arithmetic, left, right, last as nat, before)
            &&& call_ensures(A::multiply, (arithmetic, left[last], right[last]), product)
            &&& #[trigger] call_ensures(A::add, (arithmetic, before, product), value)
            &&& call_ensures(A::is_finite, (arithmetic, value), true)
        };
    if count < last {
        lemma_no_overflow(arithmetic, left, right, last as nat, before, count);
    } else if matrix::product_overflows_at(arithmetic, left, right, count) {
        let (a, p, v) = choose|a: T, p: T, v: T|
            {
                &&& matrix::finite_product(arithmetic, left, right, count, a)
                &&& call_ensures(
                    A::multiply,
                    (arithmetic, left[count as int], right[count as int]),
                    p,
                )
                &&& #[trigger] call_ensures(A::add, (arithmetic, a, p), v)
                &&& call_ensures(A::is_finite, (arithmetic, v), false)
            };
        lemma_one_product(arithmetic, left, right, count, before, a);
        assert(product == p);
        assert(value == v);
    }
}

/// A product with a column is finite, one value, and does not fail in another
/// run.
proof fn lemma_one_column<T, A: Arithmetic<T>>(
    arithmetic: &A,
    matrix: Matrix,
    input: Seq<T>,
    column: int,
    value: T,
)
    requires
        repeatable(arithmetic),
        decisive(arithmetic),
        input.len() == matrix.rows,
        matrix.rows > 0,
        matrix::column_product(arithmetic, matrix, input, column, value),
    ensures
        call_ensures(A::is_finite, (arithmetic, value), true),
        forall|other: T| #[trigger]
            matrix::column_product(arithmetic, matrix, input, column, other) ==> other == value,
        !matrix::column_not_finite::<T, A>(arithmetic, matrix, column),
        !matrix::column_overflows(arithmetic, matrix, input, column),
        forall|fault: ModelFault|
            !(#[trigger] product::column_fails(arithmetic, matrix, input, column, fault)),
{
    let code = matrix.value_type;
    let data = matrix::column_data(matrix, column);
    let weights = choose|weights: Seq<T>| #[trigger]
        matrix::column_values(arithmetic, matrix, column, weights) && matrix::finite_product(
            arithmetic,
            input,
            weights,
            matrix.rows,
            value,
        );
    assert forall|other: T| #[trigger]
        matrix::column_product(arithmetic, matrix, input, column, other) implies other
        == value by {
        let others = choose|others: Seq<T>| #[trigger]
            matrix::column_values(arithmetic, matrix, column, others) && matrix::finite_product(
                arithmetic,
                input,
                others,
                matrix.rows,
                other,
            );
        lemma_one_decoding(arithmetic, code, data, weights, others);
        lemma_one_product(arithmetic, input, weights, matrix.rows, value, other);
    }
    if matrix::column_not_finite::<T, A>(arithmetic, matrix, column) {
        let (others, index) = choose|others: Seq<T>, index: int|
            {
                &&& #[trigger] decode::decoded(arithmetic, code, data, others)
                &&& #[trigger] dense::first_not_finite(arithmetic, others, index)
            };
        lemma_one_decoding(arithmetic, code, data, weights, others);
        assert(weights[index] == others[index]);
    }
    if matrix::column_overflows(arithmetic, matrix, input, column) {
        let (others, count) = choose|others: Seq<T>, count: nat|
            {
                &&& #[trigger] matrix::column_values(arithmetic, matrix, column, others)
                &&& #[trigger] matrix::product_overflows_at(arithmetic, input, others, count)
            };
        lemma_one_decoding(arithmetic, code, data, weights, others);
        lemma_no_overflow(arithmetic, input, weights, matrix.rows, value, count);
    }
    assert forall|fault: ModelFault|
        !(#[trigger] product::column_fails(arithmetic, matrix, input, column, fault)) by {
        if product::column_fails(arithmetic, matrix, input, column, fault) {
            let (others, count) = choose|others: Seq<T>, count: nat|
                {
                    &&& #[trigger] decode::decoded(arithmetic, code, data, others)
                    &&& #[trigger] product::column_stops(arithmetic, input, others, count, fault)
                };
            lemma_one_decoding(arithmetic, code, data, weights, others);
            if product::sum_stops(arithmetic, input, others, count) {
                lemma_no_overflow(arithmetic, input, weights, matrix.rows, value, count);
            } else {
                assert(weights[count as int] == others[count as int]);
            }
        }
    }
}

/// The product that is computed from a matrix in a file and the product that is
/// computed from the loaded matrix are the same, if operations are repeatable:
/// both come about or neither does, both have one finite value for each column,
/// and an input of another length or with a value that is not finite is refused
/// by both.
pub proof fn law_direct_and_loaded_products_agree<T, A: Arithmetic<T>>(
    arithmetic: &A,
    file: Seq<u8>,
    limit: nat,
    at: int,
    input: Seq<T>,
    direct: Result<Vec<T>, ModelError>,
    loaded: Result<Vec<T>, ModelError>,
)
    requires
        repeatable(arithmetic),
        decisive(arithmetic),
        index::opened(file, limit) matches Ok(index) && 0 <= at < index.tensors.len(),
        ({
            let descriptor = index::opened(file, limit)->Ok_0.tensors[at];
            &&& matrix::load_fault(file.len(), descriptor) is None
            &&& product::model_product_answer(arithmetic, descriptor, None, file, input, direct)
            &&& matrix::product_answer(
                arithmetic,
                matrix::matrix_of(file, descriptor),
                input,
                loaded,
            )
        }),
    ensures
        ({
            let matrix = matrix::matrix_of(file, index::opened(file, limit)->Ok_0.tensors[at]);
            &&& direct is Ok <==> loaded is Ok
            &&& direct matches Ok(y) ==> loaded matches Ok(z) && y@ == z@
            &&& direct matches Ok(y) ==> {
                &&& y@.len() == matrix.columns
                &&& dense::finite_before(arithmetic, y@, y@.len() as int)
            }
            &&& input.len() != matrix.rows ==> direct is Err
            &&& (exists|i: int|
                0 <= i < input.len() && call_ensures(
                    A::is_finite,
                    (arithmetic, #[trigger] input[i]),
                    false,
                )) ==> direct is Err
        }),
{
    let descriptor = index::opened(file, limit)->Ok_0.tensors[at];
    let matrix = matrix::matrix_of(file, descriptor);
    lemma_indexed_dimensions(file, limit, at);
    assert(descriptor.shape[0] != 0 && descriptor.shape[1] != 0);
    if direct is Ok {
        let y = direct->Ok_0@;
        assert forall|column: int| 0 <= column < y.len() implies call_ensures(
            A::is_finite,
            (arithmetic, #[trigger] y[column]),
            true,
        ) by {
            lemma_one_column(arithmetic, matrix, input, column, y[column]);
        }
        if let Err(error) = loaded {
            let column = choose|column: int| #[trigger]
                matrix::product_fails(arithmetic, matrix, input, column, error@);
            lemma_one_column(arithmetic, matrix, input, column, y[column]);
        }
    }
    if loaded is Ok {
        let z = loaded->Ok_0@;
        if let Err(error) = direct {
            let column = choose|column: int| #[trigger]
                product::stored_product_fails(arithmetic, matrix, input, column, error@);
            lemma_one_column(arithmetic, matrix, input, column, z[column]);
        }
    }
    if direct is Ok && loaded is Ok {
        let y = direct->Ok_0@;
        let z = loaded->Ok_0@;
        assert forall|column: int| 0 <= column < y.len() implies y[column] == z[column] by {
            lemma_one_column(arithmetic, matrix, input, column, y[column]);
        }
        assert(y =~= z);
    }
}

} // verus!
