//! What the errors of reading a file say is so.

use vstd::arithmetic::power2;
use vstd::prelude::*;

use crate::bytes;
use crate::gguf::anatomy;
use crate::gguf::error::{Error, Failure, Fault};
use crate::gguf::file::Gguf;
use crate::gguf::grammar;
use crate::gguf::grammar::{Counts, Reading, Rules};
use crate::gguf::laws;
use crate::gguf::limits::Limits;
use crate::gguf::types;
use crate::gguf::types::{Entry, MetadataType, Tensor};
use crate::gguf::writing;

verus! {

/// A number of so many bytes, least byte first, ends at a place in a file.
pub open spec fn number_before(file: Seq<u8>, place: nat, width: nat, value: nat) -> bool {
    &&& width <= place <= file.len()
    &&& bytes::le_value(file.subrange(place - width, place as int)) == value
}

/// A limit is the one that is set for a field.
pub open spec fn is_limit(limits: Limits, field: Seq<char>, limit: nat) -> bool {
    ||| field == "tensor count"@ && limit == limits.max_tensors
    ||| field == "metadata count"@ && limit == limits.max_metadata_entries
    ||| field == "metadata array length"@ && limit == limits.max_array_elements
    ||| {
        &&& limit == limits.max_string_bytes
        &&& {
            ||| field == "metadata key"@
            ||| field == "metadata string"@
            ||| field == "metadata array string"@
            ||| field == "tensor name"@
        }
    }
}

/// What a failure says of a file is so.
pub open spec fn is_so(limits: Limits, file: Seq<u8>, failure: Failure) -> bool {
    let place = failure.offset;
    match failure.fault {
        Fault::UnexpectedEof { needed, remaining } => {
            &&& needed > remaining
            &&& remaining == 0 || place + remaining == file.len()
        },
        Fault::InvalidMagic(magic) => {
            &&& place == 4 <= file.len()
            &&& magic == file.take(4)
            &&& magic != seq![71u8, 71u8, 85u8, 70u8]
        },
        Fault::UnsupportedVersion(version) => {
            &&& number_before(file, place, 4, version as nat)
            &&& version < 2 || version > 3
        },
        Fault::EndiannessMismatch(version) => number_before(file, place, 4, version as nat),
        Fault::LimitExceeded { field, value, limit } => {
            &&& number_before(file, place, 8, value)
            &&& value > limit
            &&& is_limit(limits, field, limit)
        },
        Fault::AllocationFailed(_) => false,
        Fault::MetadataKeyTooLong(length) => length > 65_535,
        Fault::InvalidMetadataType(code) => {
            ||| code > 12 && number_before(file, place, 4, code as nat)
            ||| code <= 12 && code != 4
        },
        Fault::NestedMetadataArray => number_before(file, place, 4, 9),
        Fault::InvalidBoolean(byte) => byte > 1 && file.contains(byte),
        Fault::InvalidAlignment(alignment) => !power2::is_pow2(alignment as int),
        Fault::TensorNameTooLong(length) => length > 63,
        Fault::TooManyDimensions(count) => {
            &&& number_before(file, place, 4, count as nat)
            &&& count > 4
        },
        Fault::InvalidDimension(dimension) => {
            &&& number_before(file, place, 8, dimension as nat)
            &&& dimension > i64::MAX
        },
        Fault::InvalidTensorType(code) => {
            &&& number_before(file, place, 4, code as nat)
            &&& anatomy::block_fields(code).len() == 0
        },
        Fault::MisalignedTensorOffset { offset, alignment } => {
            &&& number_before(file, place, 8, offset)
            &&& offset % alignment != 0
        },
        Fault::TensorRowNotDivisible { elements_per_row, block_size } => {
            elements_per_row % block_size != 0
        },
        Fault::UnexpectedTensorOffset { expected, actual } => {
            &&& number_before(file, place, 8, actual)
            &&& expected != actual
        },
        Fault::TensorDataTruncated { expected, actual } => {
            &&& actual < expected
            &&& place + actual <= file.len()
        },
        _ => true,
    }
}

/// A reading succeeds, or what its failure says is so.
pub open spec fn honest<T>(rules: Rules, file: Seq<u8>, reading: Result<T, Failure>) -> bool {
    reading matches Err(failure) ==> is_so(rules.limits, file, failure)
}

/// A reading ends inside the file, or what its failure says is so.
pub open spec fn sound<T>(rules: Rules, file: Seq<u8>, reading: Reading<T>) -> bool {
    &&& honest(rules, file, reading)
    &&& reading matches Ok(found) ==> found.end <= file.len()
}

proof fn lemma_bytes(rules: Rules, file: Seq<u8>, position: nat, length: nat)
    requires
        rules.header_limit is None,
        position <= file.len(),
    ensures
        sound(rules, file, grammar::bytes_at(rules, file, position, length)),
        grammar::bytes_at(rules, file, position, length) matches Ok(part) ==> {
            &&& part.end == position + length <= file.len()
            &&& part.value == file.subrange(position as int, part.end as int)
        },
{
    reveal(grammar::bytes_at);
}

proof fn lemma_number(rules: Rules, file: Seq<u8>, position: nat, width: nat)
    requires
        rules.header_limit is None,
        position <= file.len(),
        width == 4 || width == 8,
    ensures
        sound(rules, file, grammar::number_at(rules, file, position, width)),
        grammar::number_at(rules, file, position, width) matches Ok(number) ==> {
            &&& number_before(file, number.end, width, number.value)
            &&& number.end == position + width
            &&& width == 4 ==> number.value <= u32::MAX
            &&& number.value <= u64::MAX
        },
{
    reveal(grammar::number_at);
    lemma_bytes(rules, file, position, width);
    if let Ok(part) = grammar::bytes_at(rules, file, position, width) {
        bytes::lemma_le_value_bound(part.value);
        bytes::lemma_scale_values();
    }
}

proof fn lemma_count(rules: Rules, file: Seq<u8>, position: nat, field: Seq<char>, limit: nat)
    requires
        rules.header_limit is None,
        position <= file.len(),
        is_limit(rules.limits, field, limit),
    ensures
        sound(rules, file, grammar::count_at(rules, file, position, field, limit)),
{
    reveal(grammar::count_at);
    lemma_number(rules, file, position, 8);
}

proof fn lemma_text(rules: Rules, file: Seq<u8>, position: nat, field: Seq<char>)
    requires
        rules.header_limit is None,
        position <= file.len(),
        is_limit(rules.limits, field, rules.limits.max_string_bytes as nat),
    ensures
        sound(rules, file, grammar::text_at(rules, file, position, field)),
{
    reveal(grammar::text_at);
    reveal(grammar::characters_at);
    let limit = rules.limits.max_string_bytes as nat;
    lemma_count(rules, file, position, field, limit);
    if let Ok(length) = grammar::count_at(rules, file, position, field, limit) {
        lemma_bytes(rules, file, length.end, length.value);
    }
}

proof fn lemma_flag(part: Seq<u8>)
    ensures
        grammar::invalid_flag(part) matches Some(byte) ==> byte > 1 && part.contains(byte),
    decreases part.len(),
{
    if part.len() > 0 {
        let rest = part.drop_first();
        lemma_flag(rest);
        if part[0] > 1 {
            assert(part.contains(part[0]));
        } else if let Some(byte) = grammar::invalid_flag(rest) {
            let i = choose|i: int| 0 <= i < rest.len() && rest[i] == byte;
            assert(part[i + 1] == byte);
        }
    }
}

proof fn lemma_scalar(rules: Rules, file: Seq<u8>, position: nat, value_type: MetadataType)
    requires
        rules.header_limit is None,
        position <= file.len(),
    ensures
        sound(rules, file, grammar::scalar_at(rules, file, position, value_type)),
{
    reveal(grammar::scalar_at);
    match types::fixed_width_of(value_type) {
        None => lemma_text(rules, file, position, "metadata string"@),
        Some(width) => {
            lemma_bytes(rules, file, position, width);
            if let Ok(part) = grammar::bytes_at(rules, file, position, width) {
                assert(file[position as int] == part.value[0]);
            }
        },
    }
}

proof fn lemma_texts(
    rules: Rules,
    file: Seq<u8>,
    position: nat,
    count: nat,
    done: Seq<Seq<char>>,
)
    requires
        rules.header_limit is None,
        position <= file.len(),
    ensures
        sound(rules, file, grammar::texts_from(rules, file, position, count, done)),
    decreases count - done.len(),
{
    if done.len() < count {
        lemma_text(rules, file, position, "metadata array string"@);
        if let Ok(text) = grammar::text_at(rules, file, position, "metadata array string"@) {
            lemma_texts(rules, file, text.end, count, done.push(text.value));
        }
    }
}

proof fn lemma_array(rules: Rules, file: Seq<u8>, position: nat)
    requires
        rules.header_limit is None,
        position <= file.len(),
    ensures
        sound(rules, file, grammar::array_at(rules, file, position)),
{
    reveal(grammar::array_at);
    reveal(grammar::array_length_at);
    reveal(grammar::items_at);
    reveal(grammar::fixed_array_at);
    lemma_number(rules, file, position, 4);
    if let Ok(code) = grammar::number_at(rules, file, position, 4) {
        if let Some(element_type) = types::metadata_type_of(code.value as u32) {
            let limit = rules.limits.max_array_elements as nat;
            lemma_count(rules, file, code.end, "metadata array length"@, limit);
            if let Ok(count) = grammar::count_at(
                rules,
                file,
                code.end,
                "metadata array length"@,
                limit,
            ) {
                lemma_texts(rules, file, count.end, count.value, seq![]);
                if element_type != MetadataType::String && element_type != MetadataType::Array {
                    let length = count.value * types::fixed_width_of(element_type)->0;
                    lemma_bytes(rules, file, count.end, length);
                    if let Ok(part) = grammar::bytes_at(rules, file, count.end, length) {
                        lemma_flag(part.value);
                        if let Some(byte) = grammar::invalid_flag(part.value) {
                            let i = choose|i: int| 0 <= i < part.value.len() && part.value[i] == byte;
                            assert(file[count.end + i] == byte);
                        }
                    }
                }
            }
        }
    }
}

proof fn lemma_value(rules: Rules, file: Seq<u8>, position: nat)
    requires
        rules.header_limit is None,
        position <= file.len(),
    ensures
        sound(rules, file, grammar::value_at(rules, file, position)),
{
    reveal(grammar::value_at);
    lemma_number(rules, file, position, 4);
    if let Ok(code) = grammar::number_at(rules, file, position, 4) {
        if let Some(value_type) = types::metadata_type_of(code.value as u32) {
            lemma_array(rules, file, code.end);
            lemma_scalar(rules, file, code.end, value_type);
        }
    }
}

proof fn lemma_entries(
    rules: Rules,
    file: Seq<u8>,
    position: nat,
    count: nat,
    done: Seq<Entry>,
)
    requires
        rules.header_limit is None,
        position <= file.len(),
    ensures
        sound(rules, file, grammar::entries_from(rules, file, position, count, done)),
    decreases count - done.len(),
{
    reveal(grammar::entry_with_key);
    reveal(grammar::entry_with_value);
    reveal(grammar::key_fault);
    if done.len() < count {
        lemma_text(rules, file, position, "metadata key"@);
        if let Ok(key) = grammar::text_at(rules, file, position, "metadata key"@) {
            lemma_value(rules, file, key.end);
        }
        if let Ok(entry) = grammar::entry_at(rules, file, position, done) {
            lemma_entries(rules, file, entry.end, count, done.push(entry.value));
        }
    }
}

proof fn lemma_shape(rules: Rules, file: Seq<u8>, position: nat, count: nat, done: Seq<u64>)
    requires
        rules.header_limit is None,
        position <= file.len(),
    ensures
        sound(rules, file, grammar::shape_from(rules, file, position, count, done)),
    decreases count - done.len(),
{
    if done.len() < count {
        lemma_number(rules, file, position, 8);
        if let Ok(dimension) = grammar::number_at(rules, file, position, 8) {
            if grammar::dimension_fault(done, dimension.value) is None {
                lemma_shape(
                    rules,
                    file,
                    dimension.end,
                    count,
                    done.push(dimension.value as u64),
                );
            }
        }
    }
}

proof fn lemma_tensor(
    rules: Rules,
    file: Seq<u8>,
    position: nat,
    alignment: u32,
    done: Seq<Tensor>,
)
    requires
        rules.header_limit is None,
        position <= file.len(),
    ensures
        sound(rules, file, grammar::tensor_at(rules, file, position, alignment, done)),
{
    reveal(grammar::tensor_with_name);
    reveal(grammar::tensor_shape_at);
    reveal(grammar::tensor_with_shape);
    reveal(grammar::tensor_with_type);
    reveal(grammar::name_fault);
    lemma_text(rules, file, position, "tensor name"@);
    if let Ok(name) = grammar::text_at(rules, file, position, "tensor name"@) {
        lemma_number(rules, file, name.end, 4);
        if let Ok(count) = grammar::number_at(rules, file, name.end, 4) {
            lemma_shape(rules, file, count.end, count.value, seq![]);
            if let Ok(shape) = grammar::shape_from(rules, file, count.end, count.value, seq![]) {
                lemma_number(rules, file, shape.end, 4);
                if let Ok(code) = grammar::number_at(rules, file, shape.end, 4) {
                    anatomy::lemma_sizes(code.value as u32);
                    lemma_number(rules, file, code.end, 8);
                }
            }
        }
    }
}

proof fn lemma_tensors(
    rules: Rules,
    file: Seq<u8>,
    position: nat,
    alignment: u32,
    count: nat,
    done: Seq<Tensor>,
)
    requires
        rules.header_limit is None,
        position <= file.len(),
    ensures
        sound(rules, file, grammar::tensors_from(rules, file, position, alignment, count, done)),
    decreases count - done.len(),
{
    if done.len() < count {
        lemma_tensor(rules, file, position, alignment, done);
        if let Ok(tensor) = grammar::tensor_at(rules, file, position, alignment, done) {
            lemma_tensors(rules, file, tensor.end, alignment, count, done.push(tensor.value));
        }
    }
}

proof fn lemma_with_entries(
    rules: Rules,
    file: Seq<u8>,
    counts: Counts,
    entries: Reading<Seq<Entry>>,
)
    requires
        rules.header_limit is None,
        sound(rules, file, entries),
    ensures
        honest(rules, file, grammar::document_with_entries(rules, file, counts, entries)),
{
    reveal(grammar::document_with_entries);
    reveal(grammar::document_with_tensors);
    if let Ok(entries) = entries {
        let alignment = grammar::alignment_of(entries.value);
        lemma_tensors(rules, file, entries.end, alignment, counts.tensors, seq![]);
        if power2::is_pow2(alignment as int) {
            reveal(power2::is_pow2);
            if let Ok(tensors) = grammar::tensors_from(
                rules,
                file,
                entries.end,
                alignment,
                counts.tensors,
                seq![],
            ) {
                laws::lemma_align_up_bounds(tensors.end, alignment as nat);
            }
        }
    }
}

proof fn lemma_after_magic(rules: Rules, file: Seq<u8>)
    requires
        rules.header_limit is None,
        file.len() >= 4,
    ensures
        honest(rules, file, grammar::document_version_at(rules, file, 4)),
{
    reveal(grammar::document_version_at);
    reveal(grammar::document_tensors_at);
    reveal(grammar::document_entries_at);
    let limits = rules.limits;
    lemma_bytes(rules, file, 4, 4);
    if let Ok(part) = grammar::bytes_at(rules, file, 4, 4) {
        bytes::lemma_le_value_bound(part.value);
        bytes::lemma_scale_values();
        let version = bytes::le_value(part.value);
        lemma_count(rules, file, 8, "tensor count"@, limits.max_tensors as nat);
        if let Ok(tensors) = grammar::count_at(
            rules,
            file,
            8,
            "tensor count"@,
            limits.max_tensors as nat,
        ) {
            let limit = limits.max_metadata_entries as nat;
            lemma_count(rules, file, tensors.end, "metadata count"@, limit);
            if let Ok(count) = grammar::count_at(
                rules,
                file,
                tensors.end,
                "metadata count"@,
                limit,
            ) {
                lemma_entries(rules, file, count.end, count.value, seq![]);
                lemma_with_entries(
                    rules,
                    file,
                    Counts {
                        version: version as u32,
                        tensors: tensors.value,
                        entries: count.value,
                    },
                    grammar::entries_from(rules, file, count.end, count.value, seq![]),
                );
            }
        }
    }
}

proof fn lemma_document(rules: Rules, file: Seq<u8>)
    requires
        rules.header_limit is None,
    ensures
        honest(rules, file, grammar::document(rules, file)),
{
    lemma_bytes(rules, file, 0, 4);
    if file.len() >= 4 {
        assert(file.take(4) =~= file.subrange(0, 4));
        lemma_after_magic(rules, file);
    }
}

/// What an error of reading a file says is so: a number that it shows stands in front
/// of the place that it names, and breaks the rule that it is about.
pub proof fn law_errors_are_true_of_the_file(
    source: &[u8],
    limits: Limits,
    result: Result<Gguf<'_>, Error>,
)
    requires
        writing::opened(source, limits, result),
    ensures
        result matches Err(error) ==> is_so(limits, source@, error@),
{
    lemma_document(Rules { limits, header_limit: None }, source@);
}

} // verus!
