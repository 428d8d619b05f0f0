//! The GGUF format: what a file means, and what is wrong with one that means
//! nothing.
//!
//! A reading function is given the whole file and the position at which to
//! start. It yields the value found there with the position behind it, or the
//! first failure.

use vstd::prelude::*;
use vstd::utf8;
use vstd::arithmetic::power2;

use crate::bytes;
use crate::gguf::error::{Failure, Fault};
use crate::gguf::limits::Limits;
use crate::gguf::types;
use crate::gguf::types::{Entry, MetadataType, Scalar, Tensor, Value};

verus! {

/// The rules under which a file is read.
///
/// With a header limit the file is read piece by piece: no byte of the header
/// may lie beyond the limit, and the items of arrays of fixed width are not
/// kept.
pub struct Rules {
    pub limits: Limits,
    pub header_limit: Option<u64>,
}

/// A value read from a file, with the position behind it.
#[verifier::ext_equal]
pub struct Located<T> {
    pub value: T,
    pub end: nat,
}

/// The outcome of reading a `T`.
pub type Reading<T> = Result<Located<T>, Failure>;

/// Alignment of a file that does not state one.
pub const DEFAULT_ALIGNMENT: u32 = 32;

/// Longest metadata key, in bytes.
pub const MAX_METADATA_KEY_BYTES: usize = 65_535;

/// Longest tensor name, in bytes.
pub const MAX_TENSOR_NAME_BYTES: usize = 63;

/// Fewest bytes that a metadata entry occupies.
pub const MIN_METADATA_ENTRY_BYTES: usize = 12;

/// Fewest bytes that a row of the tensor table occupies.
pub const MIN_TENSOR_INFO_BYTES: usize = 24;

/// Reading stops at `offset`.
pub open spec fn fail<T>(offset: nat, fault: Fault) -> Result<T, Failure> {
    Err(Failure { offset, fault })
}

/// The smaller of two numbers.
pub open spec fn smaller(a: nat, b: nat) -> nat {
    if a <= b {
        a
    } else {
        b
    }
}

/// The number of bytes behind `position`.
pub open spec fn bytes_left(size: nat, position: nat) -> nat {
    if position <= size {
        (size - position) as nat
    } else {
        0
    }
}

/// Why `length` bytes cannot be read at `position` of a file of `size` bytes.
pub open spec fn reach_fault(rules: Rules, size: nat, position: nat, length: nat) -> Option<Fault> {
    let end = position + length;
    match rules.header_limit {
        Some(limit) => if end > usize::MAX {
            Some(Fault::IntegerOverflow("reader position"@))
        } else if end > limit {
            Some(
                Fault::LimitExceeded {
                    field: "header bytes"@,
                    value: end,
                    limit: limit as nat,
                },
            )
        } else if end > size {
            Some(
                Fault::UnexpectedEof {
                    needed: length,
                    remaining: smaller(bytes_left(size, position), usize::MAX as nat),
                },
            )
        } else {
            None
        },
        None => if end > size {
            Some(Fault::UnexpectedEof { needed: length, remaining: bytes_left(size, position) })
        } else {
            None
        },
    }
}

/// The `length` bytes at `position`.
#[verifier::opaque]
pub open spec fn bytes_at(
    rules: Rules,
    file: Seq<u8>,
    position: nat,
    length: nat,
) -> Reading<Seq<u8>> {
    match reach_fault(rules, file.len(), position, length) {
        Some(fault) => fail(position, fault),
        None => Ok(
            Located {
                value: file.subrange(position as int, (position + length) as int),
                end: position + length,
            },
        ),
    }
}

/// The little-endian number of `width` bytes at `position`.
#[verifier::opaque]
pub open spec fn number_at(
    rules: Rules,
    file: Seq<u8>,
    position: nat,
    width: nat,
) -> Reading<nat> {
    match bytes_at(rules, file, position, width) {
        Err(failure) => Err(failure),
        Ok(bytes) => Ok(Located { value: bytes::le_value(bytes.value), end: bytes.end }),
    }
}

/// Why a number read before `end` is no acceptable count.
pub open spec fn count_fault(field: Seq<char>, value: nat, limit: nat) -> Option<Fault> {
    if value > limit {
        Some(Fault::LimitExceeded { field, value, limit })
    } else if value > usize::MAX {
        Some(Fault::IntegerOverflow(field))
    } else {
        None
    }
}

/// The eight-byte count at `position`.
#[verifier::opaque]
pub open spec fn count_at(
    rules: Rules,
    file: Seq<u8>,
    position: nat,
    field: Seq<char>,
    limit: nat,
) -> Reading<nat> {
    match number_at(rules, file, position, 8) {
        Err(failure) => Err(failure),
        Ok(number) => match count_fault(field, number.value, limit) {
            Some(fault) => fail(number.end, fault),
            None => Ok(number),
        },
    }
}

/// Why a table of `count` items cannot follow `position`, if each item
/// occupies at least `width` bytes.
pub open spec fn table_fault(
    rules: Rules,
    size: nat,
    position: nat,
    count: nat,
    width: nat,
    field: Seq<char>,
) -> Option<Fault> {
    if count * width > usize::MAX {
        Some(Fault::IntegerOverflow(field))
    } else {
        reach_fault(rules, size, position, count * width)
    }
}

/// The text of `length` bytes at `position`.
#[verifier::opaque]
pub open spec fn characters_at(
    rules: Rules,
    file: Seq<u8>,
    position: nat,
    length: nat,
    field: Seq<char>,
) -> Reading<Seq<char>> {
    match bytes_at(rules, file, position, length) {
        Err(failure) => Err(failure),
        Ok(bytes) => if utf8::valid_utf8(bytes.value) {
            Ok(Located { value: utf8::decode_utf8(bytes.value), end: bytes.end })
        } else {
            fail(bytes.end, Fault::InvalidUtf8(field))
        },
    }
}

/// The text at `position`: its length and then its bytes.
#[verifier::opaque]
pub open spec fn text_at(
    rules: Rules,
    file: Seq<u8>,
    position: nat,
    field: Seq<char>,
) -> Reading<Seq<char>> {
    match count_at(rules, file, position, field, rules.limits.max_string_bytes as nat) {
        Err(failure) => Err(failure),
        Ok(length) => characters_at(rules, file, length.end, length.value, field),
    }
}

/// The first byte that is no boolean.
pub open spec fn invalid_flag(bytes: Seq<u8>) -> Option<u8>
    decreases bytes.len(),
{
    if bytes.len() == 0 {
        None
    } else if bytes[0] > 1 {
        Some(bytes[0])
    } else {
        invalid_flag(bytes.drop_first())
    }
}

pub proof fn lemma_invalid_flag_concat(a: Seq<u8>, b: Seq<u8>)
    ensures
        invalid_flag(a + b) == match invalid_flag(a) {
            Some(byte) => Some(byte),
            None => invalid_flag(b),
        },
    decreases a.len(),
{
    if a.len() == 0 {
        assert(a + b =~= b);
    } else {
        assert((a + b).drop_first() =~= a.drop_first() + b);
        lemma_invalid_flag_concat(a.drop_first(), b);
    }
}

/// The scalar that a text stands for.
pub open spec fn text_value(text: Reading<Seq<char>>) -> Reading<Value> {
    match text {
        Err(failure) => Err(failure),
        Ok(text) => Ok(
            Located { value: Value::Scalar(Scalar::String(text.value)), end: text.end },
        ),
    }
}

/// The scalar of a given type at `position`.
#[verifier::opaque]
pub open spec fn scalar_at(
    rules: Rules,
    file: Seq<u8>,
    position: nat,
    value_type: MetadataType,
) -> Reading<Value> {
    match types::fixed_width_of(value_type) {
        None => text_value(text_at(rules, file, position, "metadata string"@)),
        Some(width) => match bytes_at(rules, file, position, width) {
            Err(failure) => Err(failure),
            Ok(bytes) => if value_type == MetadataType::Bool && bytes.value[0] > 1 {
                fail(bytes.end, Fault::InvalidBoolean(bytes.value[0]))
            } else {
                Ok(
                    Located {
                        value: Value::Scalar(types::fixed_scalar(value_type, bytes.value)),
                        end: bytes.end,
                    },
                )
            },
        },
    }
}

/// An array of texts.
pub open spec fn text_array(texts: Seq<Seq<char>>) -> Value {
    Value::Array {
        element_type: MetadataType::String,
        items: texts.map_values(|text: Seq<char>| Scalar::String(text)),
    }
}

/// The array of `count` texts of which `done` were read before `position`.
pub open spec fn texts_from(
    rules: Rules,
    file: Seq<u8>,
    position: nat,
    count: nat,
    done: Seq<Seq<char>>,
) -> Reading<Value>
    decreases count - done.len(),
{
    if done.len() >= count {
        Ok(Located { value: text_array(done), end: position })
    } else {
        match text_at(rules, file, position, "metadata array string"@) {
            Err(failure) => Err(failure),
            Ok(text) => texts_from(rules, file, text.end, count, done.push(text.value)),
        }
    }
}

/// The array of `count` texts of which `done` were read, and then `text`.
pub open spec fn texts_with(
    rules: Rules,
    file: Seq<u8>,
    count: nat,
    done: Seq<Seq<char>>,
    text: Reading<Seq<char>>,
) -> Reading<Value> {
    match text {
        Err(failure) => Err(failure),
        Ok(text) => texts_from(rules, file, text.end, count, done.push(text.value)),
    }
}

/// An array of `count` scalars of fixed width that `bytes` encode.
pub open spec fn fixed_array(
    rules: Rules,
    element_type: MetadataType,
    count: nat,
    bytes: Seq<u8>,
) -> Value {
    Value::Array {
        element_type,
        items: if rules.header_limit is None {
            types::fixed_items(element_type, count, bytes)
        } else {
            seq![]
        },
    }
}

/// The array of `count` scalars of fixed width at `position`.
#[verifier::opaque]
pub open spec fn fixed_array_at(
    rules: Rules,
    file: Seq<u8>,
    position: nat,
    element_type: MetadataType,
    count: nat,
) -> Reading<Value> {
    let length = count * types::fixed_width_of(element_type)->0;
    if length > usize::MAX {
        fail(position, Fault::IntegerOverflow("metadata array byte count"@))
    } else {
        match bytes_at(rules, file, position, length) {
            Err(failure) => Err(failure),
            Ok(bytes) => match invalid_flag(bytes.value) {
                Some(byte) if element_type == MetadataType::Bool => fail(
                    bytes.end,
                    Fault::InvalidBoolean(byte),
                ),
                _ => Ok(
                    Located {
                        value: fixed_array(rules, element_type, count, bytes.value),
                        end: bytes.end,
                    },
                ),
            },
        }
    }
}

/// The items, `count` in number, of the array whose items start at `position`.
#[verifier::opaque]
pub open spec fn items_at(
    rules: Rules,
    file: Seq<u8>,
    position: nat,
    element_type: MetadataType,
    count: nat,
) -> Reading<Value> {
    if element_type == MetadataType::String {
        match table_fault(
            rules,
            file.len(),
            position,
            count,
            8,
            "metadata string array headers"@,
        ) {
            Some(fault) => fail(position, fault),
            None => texts_from(rules, file, position, count, seq![]),
        }
    } else {
        fixed_array_at(rules, file, position, element_type, count)
    }
}

/// The length and the items of an array whose item type was read.
#[verifier::opaque]
pub open spec fn array_length_at(
    rules: Rules,
    file: Seq<u8>,
    position: nat,
    element_type: MetadataType,
) -> Reading<Value> {
    match count_at(
        rules,
        file,
        position,
        "metadata array length"@,
        rules.limits.max_array_elements as nat,
    ) {
        Err(failure) => Err(failure),
        Ok(count) => items_at(rules, file, count.end, element_type, count.value),
    }
}

/// The array at `position`.
#[verifier::opaque]
pub open spec fn array_at(rules: Rules, file: Seq<u8>, position: nat) -> Reading<Value> {
    match number_at(rules, file, position, 4) {
        Err(failure) => Err(failure),
        Ok(code) => match types::metadata_type_of(code.value as u32) {
            None => fail(code.end, Fault::InvalidMetadataType(code.value as u32)),
            Some(MetadataType::Array) => fail(code.end, Fault::NestedMetadataArray),
            Some(element_type) => array_length_at(rules, file, code.end, element_type),
        },
    }
}

/// The typed metadata value at `position`.
#[verifier::opaque]
pub open spec fn value_at(rules: Rules, file: Seq<u8>, position: nat) -> Reading<Value> {
    match number_at(rules, file, position, 4) {
        Err(failure) => Err(failure),
        Ok(code) => match types::metadata_type_of(code.value as u32) {
            None => fail(code.end, Fault::InvalidMetadataType(code.value as u32)),
            Some(MetadataType::Array) => array_at(rules, file, code.end),
            Some(value_type) => scalar_at(rules, file, code.end, value_type),
        },
    }
}

/// The characters that a segment of a metadata key is made of.
pub open spec fn is_key_character(c: char) -> bool {
    ('a' <= c && c <= 'z') || ('0' <= c && c <= '9') || c == '_'
}

/// A metadata key: non-empty segments separated by single periods.
pub open spec fn is_metadata_key(key: Seq<char>) -> bool {
    &&& key.len() > 0
    &&& forall|i: int|
        0 <= i < key.len() ==> is_key_character(#[trigger] key[i]) || {
            &&& key[i] == '.'
            &&& 0 < i < key.len() - 1
            &&& is_key_character(key[i - 1])
            &&& is_key_character(key[i + 1])
        }
}

/// Whether one of the entries has a given key.
pub open spec fn has_key(entries: Seq<Entry>, key: Seq<char>) -> bool {
    exists|i: int| 0 <= i < entries.len() && #[trigger] entries[i].key == key
}

/// Why a key cannot follow the keys of the entries `done`.
#[verifier::opaque]
pub open spec fn key_fault(done: Seq<Entry>, key: Seq<char>) -> Option<Fault> {
    let length = utf8::encode_utf8(key).len();
    if length == 0 {
        Some(Fault::EmptyMetadataKey)
    } else if length > MAX_METADATA_KEY_BYTES {
        Some(Fault::MetadataKeyTooLong(length))
    } else if !is_metadata_key(key) {
        Some(Fault::InvalidMetadataKey)
    } else if has_key(done, key) {
        Some(Fault::DuplicateMetadataKey(key))
    } else {
        None
    }
}

/// The entry made of a key and the value read behind it.
///
/// The alignment of a file is a scalar of a fixed type.
#[verifier::opaque]
pub open spec fn entry_with_value(key: Seq<char>, value: Reading<Value>) -> Reading<Entry> {
    match value {
        Err(failure) => Err(failure),
        Ok(value) => if key == "general.alignment"@ && !(value.value matches Value::Scalar(
            Scalar::U32(_),
        )) {
            fail(
                value.end,
                Fault::InvalidMetadataType(
                    types::metadata_type_code(types::value_type_of(value.value)),
                ),
            )
        } else {
            Ok(Located { value: Entry { key, value: value.value }, end: value.end })
        },
    }
}

/// The entry whose key was read, behind the entries `done`.
#[verifier::opaque]
pub open spec fn entry_with_key(
    rules: Rules,
    file: Seq<u8>,
    done: Seq<Entry>,
    key: Reading<Seq<char>>,
) -> Reading<Entry> {
    match key {
        Err(failure) => Err(failure),
        Ok(key) => match key_fault(done, key.value) {
            Some(fault) => fail(key.end, fault),
            None => entry_with_value(key.value, value_at(rules, file, key.end)),
        },
    }
}

/// The entry at `position`, behind the entries `done`.
pub open spec fn entry_at(
    rules: Rules,
    file: Seq<u8>,
    position: nat,
    done: Seq<Entry>,
) -> Reading<Entry> {
    entry_with_key(rules, file, done, text_at(rules, file, position, "metadata key"@))
}

/// The table of `count` entries of which `done` were read before `position`.
pub open spec fn entries_from(
    rules: Rules,
    file: Seq<u8>,
    position: nat,
    count: nat,
    done: Seq<Entry>,
) -> Reading<Seq<Entry>>
    decreases count - done.len(),
{
    if done.len() >= count {
        Ok(Located { value: done, end: position })
    } else {
        match entry_at(rules, file, position, done) {
            Err(failure) => Err(failure),
            Ok(entry) => entries_from(rules, file, entry.end, count, done.push(entry.value)),
        }
    }
}

/// The table of `count` entries of which `done` were read, and then `entry`.
pub open spec fn entries_with(
    rules: Rules,
    file: Seq<u8>,
    count: nat,
    done: Seq<Entry>,
    entry: Reading<Entry>,
) -> Reading<Seq<Entry>> {
    match entry {
        Err(failure) => Err(failure),
        Ok(entry) => entries_from(rules, file, entry.end, count, done.push(entry.value)),
    }
}

/// The alignment that the entries state.
pub open spec fn alignment_of(entries: Seq<Entry>) -> u32
    decreases entries.len(),
{
    if entries.len() == 0 {
        DEFAULT_ALIGNMENT
    } else if entries.last().key == "general.alignment"@ {
        match entries.last().value {
            Value::Scalar(Scalar::U32(alignment)) => alignment,
            _ => DEFAULT_ALIGNMENT,
        }
    } else {
        alignment_of(entries.drop_last())
    }
}

/// The smallest multiple of `alignment` that is not below `value`.
pub open spec fn align_up(value: nat, alignment: nat) -> nat {
    if value % alignment == 0 {
        value
    } else {
        (value - value % alignment + alignment) as nat
    }
}

/// The number of elements of a tensor of a given shape.
pub open spec fn element_count(shape: Seq<u64>) -> nat
    decreases shape.len(),
{
    if shape.len() == 0 {
        1
    } else {
        element_count(shape.drop_last()) * shape.last() as nat
    }
}

/// The number of elements in a row of a tensor of a given shape.
pub open spec fn row_length(shape: Seq<u64>) -> nat {
    if shape.len() == 0 {
        1
    } else {
        shape[0] as nat
    }
}

/// The number of bytes that a tensor occupies.
pub open spec fn stored_bytes(shape: Seq<u64>, code: u32) -> nat {
    element_count(shape) / types::block_size_of(code) * types::type_size_of(code)
}

/// Why a dimension cannot follow the dimensions `done`.
pub open spec fn dimension_fault(done: Seq<u64>, dimension: nat) -> Option<Fault> {
    if dimension > i64::MAX {
        Some(Fault::InvalidDimension(dimension as u64))
    } else if element_count(done.push(dimension as u64)) > i64::MAX {
        Some(Fault::IntegerOverflow("tensor element count"@))
    } else {
        None
    }
}

/// The shape of `count` dimensions of which `done` were read before `position`.
pub open spec fn shape_from(
    rules: Rules,
    file: Seq<u8>,
    position: nat,
    count: nat,
    done: Seq<u64>,
) -> Reading<Seq<u64>>
    decreases count - done.len(),
{
    if done.len() >= count {
        Ok(Located { value: done, end: position })
    } else {
        match number_at(rules, file, position, 8) {
            Err(failure) => Err(failure),
            Ok(dimension) => match dimension_fault(done, dimension.value) {
                Some(fault) => fail(dimension.end, fault),
                None => shape_from(
                    rules,
                    file,
                    dimension.end,
                    count,
                    done.push(dimension.value as u64),
                ),
            },
        }
    }
}

pub proof fn lemma_has_key_push(entries: Seq<Entry>, entry: Entry, key: Seq<char>)
    ensures
        has_key(entries.push(entry), key) <==> has_key(entries, key) || key == entry.key,
{
    let longer = entries.push(entry);
    if has_key(entries, key) {
        let i = choose|i: int| 0 <= i < entries.len() && #[trigger] entries[i].key == key;
        assert(longer[i].key == key);
    }
    if key == entry.key {
        assert(longer[entries.len() as int].key == key);
    }
    if has_key(longer, key) && key != entry.key {
        let i = choose|i: int| 0 <= i < longer.len() && #[trigger] longer[i].key == key;
        assert(entries[i].key == key);
    }
}

pub proof fn lemma_has_name_push(tensors: Seq<Tensor>, tensor: Tensor, name: Seq<char>)
    ensures
        has_name(tensors.push(tensor), name) <==> has_name(tensors, name) || name == tensor.name,
{
    let longer = tensors.push(tensor);
    if has_name(tensors, name) {
        let i = choose|i: int| 0 <= i < tensors.len() && #[trigger] tensors[i].name == name;
        assert(longer[i].name == name);
    }
    if name == tensor.name {
        assert(longer[tensors.len() as int].name == name);
    }
    if has_name(longer, name) && name != tensor.name {
        let i = choose|i: int| 0 <= i < longer.len() && #[trigger] longer[i].name == name;
        assert(tensors[i].name == name);
    }
}

pub proof fn lemma_alignment_push(entries: Seq<Entry>, entry: Entry)
    ensures
        alignment_of(entries.push(entry)) == if entry.key == "general.alignment"@ {
            match entry.value {
                Value::Scalar(Scalar::U32(alignment)) => alignment,
                _ => DEFAULT_ALIGNMENT,
            }
        } else {
            alignment_of(entries)
        },
{
    assert(entries.push(entry).drop_last() =~= entries);
}

/// Whether one of the tensors has a given name.
pub open spec fn has_name(tensors: Seq<Tensor>, name: Seq<char>) -> bool {
    exists|i: int| 0 <= i < tensors.len() && #[trigger] tensors[i].name == name
}

/// Why a name cannot follow the names of the tensors `done`.
#[verifier::opaque]
pub open spec fn name_fault(done: Seq<Tensor>, name: Seq<char>) -> Option<Fault> {
    let bytes = utf8::encode_utf8(name);
    if bytes.len() > MAX_TENSOR_NAME_BYTES {
        Some(Fault::TensorNameTooLong(bytes.len()))
    } else if bytes.contains(0) {
        Some(Fault::TensorNameContainsNul)
    } else if has_name(done, name) {
        Some(Fault::DuplicateTensorName(name))
    } else {
        None
    }
}

/// Why a tensor of a given shape cannot be stored with the type `code`.
pub open spec fn storage_fault(shape: Seq<u64>, code: u32) -> Option<Fault> {
    if !types::is_tensor_type(code) {
        Some(Fault::InvalidTensorType(code))
    } else if row_length(shape) % types::block_size_of(code) != 0 {
        Some(
            Fault::TensorRowNotDivisible {
                elements_per_row: row_length(shape),
                block_size: types::block_size_of(code),
            },
        )
    } else if stored_bytes(shape, code) > u64::MAX {
        Some(Fault::IntegerOverflow("tensor byte length"@))
    } else {
        None
    }
}

/// The number of data bytes that the tensors occupy, padding included.
pub open spec fn data_size_of(tensors: Seq<Tensor>, alignment: u32) -> nat {
    if tensors.len() == 0 {
        0
    } else {
        tensors.last().offset + align_up(tensors.last().byte_len, alignment as nat)
    }
}

/// Why the data of a tensor of `length` bytes cannot start at `offset`, where
/// the data of the tensors before it ends at `expected`.
pub open spec fn placement_fault(
    expected: nat,
    offset: nat,
    length: nat,
    alignment: u32,
) -> Option<Fault> {
    if offset % alignment as nat != 0 {
        Some(Fault::MisalignedTensorOffset { offset, alignment: alignment as nat })
    } else if offset != expected {
        Some(Fault::UnexpectedTensorOffset { expected, actual: offset })
    } else if length + alignment - 1 > u64::MAX {
        Some(Fault::IntegerOverflow("padded tensor byte length"@))
    } else if expected + align_up(length, alignment as nat) > u64::MAX {
        Some(Fault::IntegerOverflow("tensor data size"@))
    } else {
        None
    }
}

/// The row whose offset stands at `position`.
#[verifier::opaque]
pub open spec fn tensor_with_type(
    rules: Rules,
    file: Seq<u8>,
    position: nat,
    alignment: u32,
    done: Seq<Tensor>,
    name: Seq<char>,
    shape: Seq<u64>,
    code: u32,
) -> Reading<Tensor> {
    match number_at(rules, file, position, 8) {
        Err(failure) => Err(failure),
        Ok(offset) => match placement_fault(
            data_size_of(done, alignment),
            offset.value,
            stored_bytes(shape, code),
            alignment,
        ) {
            Some(fault) => fail(offset.end, fault),
            None => Ok(
                Located {
                    value: Tensor {
                        name,
                        shape,
                        value_type: code,
                        offset: offset.value,
                        byte_len: stored_bytes(shape, code),
                    },
                    end: offset.end,
                },
            ),
        },
    }
}

/// The row whose shape was read.
#[verifier::opaque]
pub open spec fn tensor_with_shape(
    rules: Rules,
    file: Seq<u8>,
    alignment: u32,
    done: Seq<Tensor>,
    name: Seq<char>,
    shape: Reading<Seq<u64>>,
) -> Reading<Tensor> {
    match shape {
        Err(failure) => Err(failure),
        Ok(shape) => match number_at(rules, file, shape.end, 4) {
            Err(failure) => Err(failure),
            Ok(code) => match storage_fault(shape.value, code.value as u32) {
                Some(fault) => fail(code.end, fault),
                None => tensor_with_type(
                    rules,
                    file,
                    code.end,
                    alignment,
                    done,
                    name,
                    shape.value,
                    code.value as u32,
                ),
            },
        },
    }
}

/// The row whose number of dimensions stands at `position`.
#[verifier::opaque]
pub open spec fn tensor_shape_at(
    rules: Rules,
    file: Seq<u8>,
    position: nat,
    alignment: u32,
    done: Seq<Tensor>,
    name: Seq<char>,
) -> Reading<Tensor> {
    match number_at(rules, file, position, 4) {
        Err(failure) => Err(failure),
        Ok(count) => if count.value > 4 {
            fail(count.end, Fault::TooManyDimensions(count.value as u32))
        } else {
            tensor_with_shape(
                rules,
                file,
                alignment,
                done,
                name,
                shape_from(rules, file, count.end, count.value, seq![]),
            )
        },
    }
}

/// The row whose name was read.
#[verifier::opaque]
pub open spec fn tensor_with_name(
    rules: Rules,
    file: Seq<u8>,
    alignment: u32,
    done: Seq<Tensor>,
    name: Reading<Seq<char>>,
) -> Reading<Tensor> {
    match name {
        Err(failure) => Err(failure),
        Ok(name) => match name_fault(done, name.value) {
            Some(fault) => fail(name.end, fault),
            None => tensor_shape_at(rules, file, name.end, alignment, done, name.value),
        },
    }
}

/// The row of the tensor table at `position`, behind the rows `done`.
pub open spec fn tensor_at(
    rules: Rules,
    file: Seq<u8>,
    position: nat,
    alignment: u32,
    done: Seq<Tensor>,
) -> Reading<Tensor> {
    tensor_with_name(
        rules,
        file,
        alignment,
        done,
        text_at(rules, file, position, "tensor name"@),
    )
}

/// The table of `count` rows of which `done` were read before `position`.
pub open spec fn tensors_from(
    rules: Rules,
    file: Seq<u8>,
    position: nat,
    alignment: u32,
    count: nat,
    done: Seq<Tensor>,
) -> Reading<Seq<Tensor>>
    decreases count - done.len(),
{
    if done.len() >= count {
        Ok(Located { value: done, end: position })
    } else {
        match tensor_at(rules, file, position, alignment, done) {
            Err(failure) => Err(failure),
            Ok(tensor) => tensors_from(
                rules,
                file,
                tensor.end,
                alignment,
                count,
                done.push(tensor.value),
            ),
        }
    }
}

/// The table of `count` rows of which `done` were read, and then `tensor`.
pub open spec fn tensors_with(
    rules: Rules,
    file: Seq<u8>,
    alignment: u32,
    count: nat,
    done: Seq<Tensor>,
    tensor: Reading<Tensor>,
) -> Reading<Seq<Tensor>> {
    match tensor {
        Err(failure) => Err(failure),
        Ok(tensor) => tensors_from(
            rules,
            file,
            tensor.end,
            alignment,
            count,
            done.push(tensor.value),
        ),
    }
}

/// The contents of a file.
#[verifier::ext_equal]
pub struct Document {
    pub version: u32,
    pub alignment: u32,
    /// Bytes of the header and the tables, before alignment padding.
    pub header_size: nat,
    pub data_offset: nat,
    pub data_size: nat,
    pub metadata: Seq<Entry>,
    pub tensors: Seq<Tensor>,
}

/// What the start of a file states.
pub struct Counts {
    pub version: u32,
    pub tensors: nat,
    pub entries: nat,
}

/// The position of the tensor data behind tables that end at `end`.
pub open spec fn data_offset_of(end: nat, tensors: Seq<Tensor>, alignment: u32) -> nat {
    if tensors.len() == 0 {
        end
    } else {
        align_up(end, alignment as nat)
    }
}

/// Why the tensor data cannot follow tables that end at `end`.
pub open spec fn data_fault(
    size: nat,
    end: nat,
    tensors: Seq<Tensor>,
    alignment: u32,
) -> Option<Fault> {
    let data_offset = data_offset_of(end, tensors, alignment);
    let data_size = data_size_of(tensors, alignment);
    if tensors.len() > 0 && end + alignment - 1 > usize::MAX {
        Some(Fault::IntegerOverflow("data offset"@))
    } else if data_offset > size {
        Some(Fault::UnexpectedEof { needed: (data_offset - size) as nat, remaining: 0 })
    } else if size - data_offset < data_size {
        Some(Fault::TensorDataTruncated {
            expected: data_size,
            actual: (size - data_offset) as nat,
        })
    } else {
        None
    }
}

/// The file whose tables were read.
#[verifier::opaque]
pub open spec fn document_with_tensors(
    file: Seq<u8>,
    counts: Counts,
    entries: Seq<Entry>,
    tensors: Reading<Seq<Tensor>>,
) -> Result<Document, Failure> {
    match tensors {
        Err(failure) => Err(failure),
        Ok(tensors) => {
            let alignment = alignment_of(entries);
            match data_fault(file.len(), tensors.end, tensors.value, alignment) {
                Some(fault) => fail(tensors.end, fault),
                None => Ok(
                    Document {
                        version: counts.version,
                        alignment,
                        header_size: tensors.end,
                        data_offset: data_offset_of(tensors.end, tensors.value, alignment),
                        data_size: data_size_of(tensors.value, alignment),
                        metadata: entries,
                        tensors: tensors.value,
                    },
                ),
            }
        },
    }
}

/// Why a tensor table cannot follow the entries.
pub open spec fn entries_fault(
    rules: Rules,
    size: nat,
    position: nat,
    entries: Seq<Entry>,
    count: nat,
) -> Option<Fault> {
    if !power2::is_pow2(alignment_of(entries) as int) {
        Some(Fault::InvalidAlignment(alignment_of(entries)))
    } else {
        table_fault(
            rules,
            size,
            position,
            count,
            MIN_TENSOR_INFO_BYTES as nat,
            "tensor table"@,
        )
    }
}

/// The file whose metadata was read.
#[verifier::opaque]
pub open spec fn document_with_entries(
    rules: Rules,
    file: Seq<u8>,
    counts: Counts,
    entries: Reading<Seq<Entry>>,
) -> Result<Document, Failure> {
    match entries {
        Err(failure) => Err(failure),
        Ok(entries) => match entries_fault(
            rules,
            file.len(),
            entries.end,
            entries.value,
            counts.tensors,
        ) {
            Some(fault) => fail(entries.end, fault),
            None => document_with_tensors(
                file,
                counts,
                entries.value,
                tensors_from(
                    rules,
                    file,
                    entries.end,
                    alignment_of(entries.value),
                    counts.tensors,
                    seq![],
                ),
            ),
        },
    }
}

/// The file whose number of entries stands at `position`.
#[verifier::opaque]
pub open spec fn document_entries_at(
    rules: Rules,
    file: Seq<u8>,
    position: nat,
    version: u32,
    tensors: nat,
) -> Result<Document, Failure> {
    match count_at(
        rules,
        file,
        position,
        "metadata count"@,
        rules.limits.max_metadata_entries as nat,
    ) {
        Err(failure) => Err(failure),
        Ok(entries) => match table_fault(
            rules,
            file.len(),
            entries.end,
            entries.value,
            MIN_METADATA_ENTRY_BYTES as nat,
            "metadata table"@,
        ) {
            Some(fault) => fail(entries.end, fault),
            None => document_with_entries(
                rules,
                file,
                Counts { version, tensors, entries: entries.value },
                entries_from(rules, file, entries.end, entries.value, seq![]),
            ),
        },
    }
}

/// The file whose number of tensors stands at `position`.
#[verifier::opaque]
pub open spec fn document_tensors_at(
    rules: Rules,
    file: Seq<u8>,
    position: nat,
    version: u32,
) -> Result<Document, Failure> {
    match count_at(
        rules,
        file,
        position,
        "tensor count"@,
        rules.limits.max_tensors as nat,
    ) {
        Err(failure) => Err(failure),
        Ok(tensors) => document_entries_at(rules, file, tensors.end, version, tensors.value),
    }
}

/// Why a version is not supported. `swapped` is the version as read with the
/// opposite byte order.
pub open spec fn version_fault(version: nat, swapped: nat) -> Option<Fault> {
    if 2 <= swapped <= 3 {
        Some(Fault::EndiannessMismatch(version as u32))
    } else if !(2 <= version <= 3) {
        Some(Fault::UnsupportedVersion(version as u32))
    } else {
        None
    }
}

/// The file whose version stands at `position`.
#[verifier::opaque]
pub open spec fn document_version_at(
    rules: Rules,
    file: Seq<u8>,
    position: nat,
) -> Result<Document, Failure> {
    match bytes_at(rules, file, position, 4) {
        Err(failure) => Err(failure),
        Ok(bytes) => {
            let version = bytes::le_value(bytes.value);
            match version_fault(version, bytes::le_value(bytes.value.reverse())) {
                Some(fault) => fail(bytes.end, fault),
                None => document_tensors_at(rules, file, bytes.end, version as u32),
            }
        },
    }
}

/// The contents of a file, or what is wrong with it.
pub open spec fn document(rules: Rules, file: Seq<u8>) -> Result<Document, Failure> {
    match bytes_at(rules, file, 0, 4) {
        Err(failure) => Err(failure),
        Ok(magic) => if magic.value != seq![71u8, 71u8, 85u8, 70u8] {
            fail(magic.end, Fault::InvalidMagic(magic.value))
        } else {
            document_version_at(rules, file, magic.end)
        },
    }
}

} // verus!
