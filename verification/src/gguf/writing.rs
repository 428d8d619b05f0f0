//! How a file is written, and that reading gives back what was written.

use vstd::arithmetic::div_mod;
use vstd::arithmetic::power;
use vstd::arithmetic::power2;
use vstd::prelude::*;
use vstd::utf8;

use crate::bytes;
use crate::gguf::anatomy;
use crate::gguf::error::{Error, ReadError};
use crate::gguf::file::Gguf;
use crate::gguf::grammar;
use crate::gguf::grammar::{Document, Located, Reading, Rules};
use crate::gguf::header::GgufHeader;
use crate::gguf::laws;
use crate::gguf::limits::{HeaderLimits, Limits};
use crate::gguf::stream::SliceReader;
use crate::gguf::types;
use crate::gguf::types::{Entry, MetadataType, Scalar, Tensor, Value};

verus! {

/// A number, its lowest byte first.
pub open spec fn number(value: nat, width: nat) -> Seq<u8> {
    Seq::new(width, |i: int| (value as int / power::pow(256, i as nat) % 256) as u8)
}

/// A text: its length in bytes, and then its bytes.
pub open spec fn text(characters: Seq<char>) -> Seq<u8> {
    let bytes = utf8::encode_utf8(characters);
    number(bytes.len(), 8) + bytes
}

/// A number below zero stands as far below `modulus`.
pub open spec fn wrapped(value: int, modulus: nat) -> nat {
    if value < 0 {
        (modulus + value) as nat
    } else {
        value as nat
    }
}

/// A scalar.
pub open spec fn scalar(value: Scalar) -> Seq<u8> {
    match value {
        Scalar::U8(value) => number(value as nat, 1),
        Scalar::I8(value) => number(wrapped(value as int, 0x100), 1),
        Scalar::U16(value) => number(value as nat, 2),
        Scalar::I16(value) => number(wrapped(value as int, 0x1_0000), 2),
        Scalar::U32(value) => number(value as nat, 4),
        Scalar::I32(value) => number(wrapped(value as int, 0x1_0000_0000), 4),
        Scalar::F32(bits) => number(bits as nat, 4),
        Scalar::Bool(value) => seq![
            if value {
                1u8
            } else {
                0u8
            },
        ],
        Scalar::String(value) => text(value),
        Scalar::U64(value) => number(value as nat, 8),
        Scalar::I64(value) => number(wrapped(value as int, 0x1_0000_0000_0000_0000), 8),
        Scalar::F64(bits) => number(bits as nat, 8),
    }
}

/// The number that announces a scalar.
pub open spec fn kind_of(value: Scalar) -> nat {
    match value {
        Scalar::U8(_) => 0,
        Scalar::I8(_) => 1,
        Scalar::U16(_) => 2,
        Scalar::I16(_) => 3,
        Scalar::U32(_) => 4,
        Scalar::I32(_) => 5,
        Scalar::F32(_) => 6,
        Scalar::Bool(_) => 7,
        Scalar::String(_) => 8,
        Scalar::U64(_) => 10,
        Scalar::I64(_) => 11,
        Scalar::F64(_) => 12,
    }
}

/// The number that announces the items of an array.
pub open spec fn item_kind(element_type: MetadataType) -> nat {
    match element_type {
        MetadataType::U8 => 0,
        MetadataType::I8 => 1,
        MetadataType::U16 => 2,
        MetadataType::I16 => 3,
        MetadataType::U32 => 4,
        MetadataType::I32 => 5,
        MetadataType::F32 => 6,
        MetadataType::Bool => 7,
        MetadataType::String => 8,
        MetadataType::Array => 9,
        MetadataType::U64 => 10,
        MetadataType::I64 => 11,
        MetadataType::F64 => 12,
    }
}

/// The scalars from number `from` on, one behind the other.
pub open spec fn scalars(items: Seq<Scalar>, from: int) -> Seq<u8>
    decreases items.len() - from,
{
    if from >= items.len() {
        seq![]
    } else {
        scalar(items[from]) + scalars(items, from + 1)
    }
}

/// A metadata value: what announces it, and then the scalar, or the kind and the
/// number of the items and the items.
pub open spec fn metadata_value(value: Value) -> Seq<u8> {
    match value {
        Value::Scalar(value) => number(kind_of(value), 4) + scalar(value),
        Value::Array { element_type, items } => number(9, 4) + (number(item_kind(element_type), 4)
            + (number(items.len(), 8) + scalars(items, 0))),
    }
}

/// A metadata entry: its key and its value.
pub open spec fn entry(entry: Entry) -> Seq<u8> {
    text(entry.key) + metadata_value(entry.value)
}

/// The entries from number `from` on, one behind the other.
pub open spec fn entries(items: Seq<Entry>, from: int) -> Seq<u8>
    decreases items.len() - from,
{
    if from >= items.len() {
        seq![]
    } else {
        entry(items[from]) + entries(items, from + 1)
    }
}

/// The dimensions from number `from` on, one behind the other.
pub open spec fn dimensions(shape: Seq<u64>, from: int) -> Seq<u8>
    decreases shape.len() - from,
{
    if from >= shape.len() {
        seq![]
    } else {
        number(shape[from] as nat, 8) + dimensions(shape, from + 1)
    }
}

/// A row of the tensor table: name, dimensions, type and offset.
pub open spec fn tensor(tensor: Tensor) -> Seq<u8> {
    text(tensor.name) + (number(tensor.shape.len(), 4) + (dimensions(tensor.shape, 0) + (number(
        tensor.value_type as nat,
        4,
    ) + number(tensor.offset, 8))))
}

/// The rows from number `from` on, one behind the other.
pub open spec fn tensors(items: Seq<Tensor>, from: int) -> Seq<u8>
    decreases items.len() - from,
{
    if from >= items.len() {
        seq![]
    } else {
        tensor(items[from]) + tensors(items, from + 1)
    }
}

/// The header of a file: the letters GGUF, the version, the numbers of tensors and
/// of entries, the entries and the tensor table.
pub open spec fn header(version: u32, metadata: Seq<Entry>, table: Seq<Tensor>) -> Seq<u8> {
    seq![71u8, 71u8, 85u8, 70u8] + (number(version as nat, 4) + (number(table.len(), 8) + (number(
        metadata.len(),
        8,
    ) + (entries(metadata, 0) + tensors(table, 0)))))
}

/// Bytes stand at a position of a file.
pub open spec fn stands(file: Seq<u8>, position: nat, part: Seq<u8>) -> bool {
    &&& position + part.len() <= file.len()
    &&& forall|i: int| 0 <= i < part.len() ==> file[position + i] == #[trigger] part[i]
}

proof fn lemma_stands(file: Seq<u8>, position: nat, part: Seq<u8>)
    ensures
        stands(file, position, part) <==> position + part.len() <= file.len() && file.subrange(
            position as int,
            (position + part.len()) as int,
        ) == part,
{
    if position + part.len() <= file.len() {
        let found = file.subrange(position as int, (position + part.len()) as int);
        if stands(file, position, part) {
            assert(found =~= part);
        }
        if found == part {
            assert forall|i: int| 0 <= i < part.len() implies file[position + i]
                == #[trigger] part[i] by {
                assert(found[i] == file[position + i]);
            }
        }
    }
}

proof fn lemma_stand_both(file: Seq<u8>, position: nat, first: Seq<u8>, second: Seq<u8>)
    ensures
        stands(file, position, first + second) <==> stands(file, position, first) && stands(
            file,
            position + first.len(),
            second,
        ),
{
    let both = first + second;
    if stands(file, position, both) {
        assert forall|i: int| 0 <= i < first.len() implies file[position + i]
            == #[trigger] first[i] by {
            assert(both[i] == first[i]);
        }
        assert forall|i: int| 0 <= i < second.len() implies file[position + first.len() + i]
            == #[trigger] second[i] by {
            assert(both[first.len() + i] == second[i]);
        }
    }
    if stands(file, position, first) && stands(file, position + first.len(), second) {
        assert forall|i: int| 0 <= i < both.len() implies file[position + i]
            == #[trigger] both[i] by {
            if i < first.len() {
                assert(both[i] == first[i]);
            } else {
                assert(both[i] == second[i - first.len()]);
            }
        }
    }
}

/// The lowest byte comes first, and the rest behind it.
proof fn lemma_number_step(value: nat, width: nat)
    requires
        width > 0,
    ensures
        number(value, width) == seq![(value % 256) as u8] + number(
            value / 256,
            (width - 1) as nat,
        ),
{
    let rest = seq![(value % 256) as u8] + number(value / 256, (width - 1) as nat);
    assert forall|i: int| 0 <= i < width implies #[trigger] number(value, width)[i]
        == rest[i] by {
        if i == 0 {
            power::lemma_pow0(256);
        } else {
            let unit = power::pow(256, (i - 1) as nat);
            power::lemma_pow_positive(256, (i - 1) as nat);
            reveal(power::pow);
            assert(power::pow(256, i as nat) == 256 * unit);
            div_mod::lemma_div_denominator(value as int, 256, unit);
        }
    }
    assert(number(value, width) =~= rest);
}

pub(crate) proof fn lemma_number_bytes(value: nat, width: nat)
    ensures
        number(value, width) == bytes::le_bytes(value, width),
    decreases width,
{
    if width == 0 {
        assert(number(value, width) =~= bytes::le_bytes(value, width));
    } else {
        lemma_number_step(value, width);
        lemma_number_bytes(value / 256, (width - 1) as nat);
    }
}

/// Bytes are those of the number that they stand for.
proof fn lemma_bytes_of_value(part: Seq<u8>)
    ensures
        number(bytes::le_value(part), part.len()) == part,
        bytes::le_value(part) < bytes::scale(part.len()),
    decreases part.len(),
{
    bytes::lemma_le_value_bound(part);
    if part.len() == 0 {
        assert(number(bytes::le_value(part), 0) =~= part);
    } else {
        let rest = part.drop_first();
        lemma_bytes_of_value(rest);
        lemma_number_step(bytes::le_value(part), part.len());
        assert(seq![part[0]] + rest =~= part);
    }
}

/// A number that fits is read back from its bytes.
proof fn lemma_value_of_bytes(value: nat, width: nat)
    requires
        value < bytes::scale(width),
    ensures
        bytes::le_value(number(value, width)) == value,
{
    lemma_number_bytes(value, width);
    bytes::lemma_le_bytes_value(value, width);
}

/// Files are read as a whole, and fit into memory.
pub open spec fn whole(rules: Rules, file: Seq<u8>) -> bool {
    &&& rules.header_limit is None
    &&& file.len() <= usize::MAX
}

/// A value was found, with the position behind it.
pub open spec fn found<T>(value: T, end: nat) -> Reading<T> {
    Ok(Located { value, end })
}

proof fn lemma_number(rules: Rules, file: Seq<u8>, position: nat, width: nat, value: nat)
    requires
        whole(rules, file),
    ensures
        value < bytes::scale(width) && stands(file, position, number(value, width))
            ==> grammar::number_at(rules, file, position, width) == found(value, position + width),
        grammar::number_at(rules, file, position, width) matches Ok(read) ==> {
            &&& read.end == position + width
            &&& read.value < bytes::scale(width)
            &&& stands(file, position, number(read.value, width))
        },
{
    reveal(grammar::bytes_at);
    reveal(grammar::number_at);
    lemma_stands(file, position, number(value, width));
    if value < bytes::scale(width) {
        lemma_value_of_bytes(value, width);
    }
    if let Ok(read) = grammar::number_at(rules, file, position, width) {
        let part = file.subrange(position as int, (position + width) as int);
        lemma_bytes_of_value(part);
        lemma_stands(file, position, number(read.value, width));
    }
}

proof fn lemma_scales()
    ensures
        bytes::scale(1) == 0x100,
        bytes::scale(2) == 0x1_0000,
        bytes::scale(4) == 0x1_0000_0000,
        bytes::scale(8) == 0x1_0000_0000_0000_0000,
{
    reveal_with_fuel(bytes::scale, 9);
}

proof fn lemma_text(
    rules: Rules,
    file: Seq<u8>,
    position: nat,
    field: Seq<char>,
    characters: Seq<char>,
)
    requires
        whole(rules, file),
    ensures
        utf8::encode_utf8(characters).len() <= rules.limits.max_string_bytes && stands(
            file,
            position,
            text(characters),
        ) ==> grammar::text_at(rules, file, position, field) == found(
            characters,
            position + text(characters).len(),
        ),
        grammar::text_at(rules, file, position, field) matches Ok(read) ==> {
            &&& read.end == position + text(read.value).len()
            &&& stands(file, position, text(read.value))
            &&& utf8::encode_utf8(read.value).len() <= rules.limits.max_string_bytes
        },
{
    reveal(grammar::bytes_at);
    reveal(grammar::count_at);
    reveal(grammar::characters_at);
    reveal(grammar::text_at);
    lemma_scales();
    let part = utf8::encode_utf8(characters);
    lemma_number(rules, file, position, 8, part.len());
    lemma_stand_both(file, position, number(part.len(), 8), part);
    lemma_stands(file, position + 8, part);
    utf8::encode_utf8_valid_utf8(characters);
    utf8::encode_utf8_decode_utf8(characters);
    if let Ok(read) = grammar::text_at(rules, file, position, field) {
        let length = grammar::number_at(rules, file, position, 8)->Ok_0.value;
        let there = file.subrange((position + 8) as int, (position + 8 + length) as int);
        utf8::decode_utf8_encode_utf8(there);
        lemma_stand_both(file, position, number(length, 8), there);
        lemma_stands(file, position + 8, there);
    }
}

/// The width of scalars that are not texts.
pub open spec fn width_of(kind: nat) -> nat {
    if kind == 0 || kind == 1 || kind == 7 {
        1
    } else if kind == 2 || kind == 3 {
        2
    } else if kind == 4 || kind == 5 || kind == 6 {
        4
    } else {
        8
    }
}

/// A scalar of fixed width is decoded from its bytes.
proof fn lemma_decoded(value: Scalar)
    requires
        !(value is String),
    ensures
        types::fixed_scalar(types::scalar_type(value), scalar(value)) == value,
        types::fixed_width_of(types::scalar_type(value)) == Some(scalar(value).len()),
        scalar(value).len() == width_of(kind_of(value)),
        value is Bool ==> scalar(value)[0] <= 1,
{
    lemma_scales();
    match value {
        Scalar::U8(x) => lemma_value_of_bytes(x as nat, 1),
        Scalar::I8(x) => lemma_value_of_bytes(wrapped(x as int, 0x100), 1),
        Scalar::U16(x) => lemma_value_of_bytes(x as nat, 2),
        Scalar::I16(x) => lemma_value_of_bytes(wrapped(x as int, 0x1_0000), 2),
        Scalar::U32(x) => lemma_value_of_bytes(x as nat, 4),
        Scalar::I32(x) => lemma_value_of_bytes(wrapped(x as int, 0x1_0000_0000), 4),
        Scalar::F32(x) => lemma_value_of_bytes(x as nat, 4),
        Scalar::U64(x) => lemma_value_of_bytes(x as nat, 8),
        Scalar::I64(x) => lemma_value_of_bytes(wrapped(x as int, 0x1_0000_0000_0000_0000), 8),
        Scalar::F64(x) => lemma_value_of_bytes(x as nat, 8),
        Scalar::Bool(_) => {
            reveal_with_fuel(bytes::le_value, 2);
        },
        Scalar::String(_) => {},
    }
}

/// Bytes are those of the scalar that is decoded from them.
proof fn lemma_encoded(value_type: MetadataType, part: Seq<u8>)
    requires
        types::fixed_width_of(value_type) == Some(part.len()),
        value_type == MetadataType::Bool ==> part[0] <= 1,
    ensures
        scalar(types::fixed_scalar(value_type, part)) == part,
        types::scalar_type(types::fixed_scalar(value_type, part)) == value_type,
        kind_of(types::fixed_scalar(value_type, part)) == item_kind(value_type),
{
    lemma_scales();
    lemma_bytes_of_value(part);
    if value_type == MetadataType::Bool {
        reveal_with_fuel(bytes::le_value, 2);
        assert(part =~= seq![part[0]]);
    }
}

proof fn lemma_scalar(
    rules: Rules,
    file: Seq<u8>,
    position: nat,
    value_type: MetadataType,
    value: Scalar,
)
    requires
        whole(rules, file),
        value_type != MetadataType::Array,
    ensures
        ({
            &&& value matches Scalar::String(t) ==> utf8::encode_utf8(t).len()
                <= rules.limits.max_string_bytes
            &&& item_kind(value_type) == kind_of(value)
            &&& stands(file, position, scalar(value))
        }) ==> grammar::scalar_at(rules, file, position, value_type) == found(
            Value::Scalar(value),
            position + scalar(value).len(),
        ),
        grammar::scalar_at(rules, file, position, value_type) matches Ok(read) ==> {
            &&& read.value is Scalar
            &&& kind_of(read.value->Scalar_0) == item_kind(value_type)
            &&& read.end == position + scalar(read.value->Scalar_0).len()
            &&& stands(file, position, scalar(read.value->Scalar_0))
            &&& read.value->Scalar_0 matches Scalar::String(t) ==> utf8::encode_utf8(t).len()
                <= rules.limits.max_string_bytes
        },
{
    reveal(grammar::scalar_at);
    reveal(grammar::bytes_at);
    if value_type == MetadataType::String {
        let field = "metadata string"@;
        if let Scalar::String(characters) = value {
            lemma_text(rules, file, position, field, characters);
        }
        lemma_text(rules, file, position, field, seq![]);
    } else {
        if item_kind(value_type) == kind_of(value) {
            lemma_decoded(value);
            assert(types::scalar_type(value) == value_type);
            lemma_stands(file, position, scalar(value));
        }
        if let Ok(read) = grammar::scalar_at(rules, file, position, value_type) {
            let width = types::fixed_width_of(value_type)->0;
            let part = file.subrange(position as int, (position + width) as int);
            lemma_encoded(value_type, part);
            lemma_stands(file, position, part);
        }
    }
}

/// The items of an array: all of one kind, and texts within the limit.
pub open spec fn items_allowed(
    rules: Rules,
    element_type: MetadataType,
    items: Seq<Scalar>,
) -> bool {
    &&& element_type != MetadataType::Array
    &&& items.len() <= rules.limits.max_array_elements
    &&& forall|i: int|
        0 <= i < items.len() ==> {
            &&& kind_of(#[trigger] items[i]) == item_kind(element_type)
            &&& items[i] matches Scalar::String(t) ==> utf8::encode_utf8(t).len()
                <= rules.limits.max_string_bytes
        }
}

proof fn lemma_flags(part: Seq<u8>)
    ensures
        grammar::invalid_flag(part) is None <==> forall|i: int|
            0 <= i < part.len() ==> #[trigger] part[i] <= 1,
    decreases part.len(),
{
    if part.len() > 0 {
        let rest = part.drop_first();
        lemma_flags(rest);
        if forall|i: int| 0 <= i < part.len() ==> #[trigger] part[i] <= 1 {
            assert forall|i: int| 0 <= i < rest.len() implies #[trigger] rest[i] <= 1 by {
                assert(part[i + 1] <= 1);
            }
        }
        if part[0] <= 1 && forall|i: int| 0 <= i < rest.len() ==> #[trigger] rest[i] <= 1 {
            assert forall|i: int| 0 <= i < part.len() implies #[trigger] part[i] <= 1 by {
                if i > 0 {
                    assert(rest[i - 1] <= 1);
                }
            }
        }
    }
}

/// Scalars of fixed width stand at multiples of the width.
proof fn lemma_scalars_placed(items: Seq<Scalar>, width: int, from: int, at: int)
    requires
        0 <= from <= items.len(),
        width > 0,
        forall|i: int| 0 <= i < items.len() ==> scalar(#[trigger] items[i]).len() == width,
    ensures
        scalars(items, from).len() == (items.len() - from) * width,
        from <= at < items.len() ==> {
            &&& 0 <= (at - from) * width
            &&& (at - from) * width + width <= scalars(items, from).len()
            &&& scalars(items, from).subrange(
                (at - from) * width,
                (at - from) * width + width,
            ) == scalar(items[at])
        },
    decreases items.len() - from,
{
    if from < items.len() {
        lemma_scalars_placed(items, width, from + 1, at);
        let first = scalar(items[from]);
        let rest = scalars(items, from + 1);
        let count = items.len() - from - 1;
        assert((count + 1) * width == count * width + width) by (nonlinear_arith);
        assert(first.len() == width);
        if from < at < items.len() {
            let back = at - from - 1;
            assert((back + 1) * width == back * width + width) by (nonlinear_arith);
            assert((first + rest).subrange(
                (at - from) * width,
                (at - from) * width + width,
            ) =~= rest.subrange(back * width, back * width + width));
        } else if at == from {
            assert(0 * width == 0);
            assert((first + rest).subrange(0, width) =~= first);
        }
    } else {
        assert(0 * width == 0);
    }
}

/// Bytes are those of the scalars of fixed width that are decoded from them.
proof fn lemma_items_encoded(element_type: MetadataType, count: nat, part: Seq<u8>, from: int)
    requires
        types::fixed_width_of(element_type) is Some,
        part.len() == count * types::fixed_width_of(element_type)->0,
        element_type == MetadataType::Bool ==> grammar::invalid_flag(part) is None,
        0 <= from <= count,
    ensures
        0 <= from * types::fixed_width_of(element_type)->0 <= part.len(),
        scalars(types::fixed_items(element_type, count, part), from) == part.subrange(
            from * types::fixed_width_of(element_type)->0,
            part.len() as int,
        ),
    decreases count - from,
{
    let width = types::fixed_width_of(element_type)->0;
    let items = types::fixed_items(element_type, count, part);
    assert(0 <= from * width <= count * width) by (nonlinear_arith)
        requires
            0 <= from <= count,
            width >= 0,
    ;
    if from < count {
        lemma_items_encoded(element_type, count, part, from + 1);
        assert((from + 1) * width == from * width + width) by (nonlinear_arith);
        let first = part.subrange(from * width, (from + 1) * width);
        lemma_flags(part);
        lemma_encoded(element_type, first);
        assert(items[from] == types::fixed_scalar(element_type, first));
        assert(first + part.subrange((from + 1) * width, part.len() as int) =~= part.subrange(
            from * width,
            part.len() as int,
        ));
    } else {
        assert(part.subrange(from * width, part.len() as int) =~= seq![]);
    }
}

/// Scalars are decoded from their bytes.
proof fn lemma_items_decoded(element_type: MetadataType, items: Seq<Scalar>)
    requires
        element_type != MetadataType::Array,
        element_type != MetadataType::String,
        forall|i: int|
            0 <= i < items.len() ==> kind_of(#[trigger] items[i]) == item_kind(element_type),
    ensures
        types::fixed_width_of(element_type) is Some,
        scalars(items, 0).len() == items.len() * types::fixed_width_of(element_type)->0,
        types::fixed_items(element_type, items.len(), scalars(items, 0)) == items,
        element_type == MetadataType::Bool ==> grammar::invalid_flag(scalars(items, 0)) is None,
{
    let width = types::fixed_width_of(element_type)->0 as int;
    let part = scalars(items, 0);
    assert forall|i: int| 0 <= i < items.len() implies scalar(#[trigger] items[i]).len()
        == width && types::scalar_type(items[i]) == element_type by {
        lemma_decoded(items[i]);
    }
    lemma_scalars_placed(items, width, 0, 0);
    let decoded = types::fixed_items(element_type, items.len(), part);
    assert forall|i: int| 0 <= i < items.len() implies #[trigger] decoded[i] == items[i] by {
        lemma_scalars_placed(items, width, 0, i);
        lemma_decoded(items[i]);
        assert((i + 1) * width == i * width + width) by (nonlinear_arith);
    }
    assert(decoded =~= items);
    if element_type == MetadataType::Bool {
        assert forall|i: int| 0 <= i < part.len() implies #[trigger] part[i] <= 1 by {
            lemma_scalars_placed(items, 1, 0, i);
            lemma_decoded(items[i]);
            assert(part.subrange(i, i + 1)[0] == part[i]);
            assert(i * 1 == i);
        }
        lemma_flags(part);
    }
}

/// The texts of an array.
proof fn lemma_texts_written(
    rules: Rules,
    file: Seq<u8>,
    position: nat,
    items: Seq<Scalar>,
    done: Seq<Seq<char>>,
)
    requires
        whole(rules, file),
        items_allowed(rules, MetadataType::String, items),
        done.len() <= items.len(),
        forall|i: int| 0 <= i < done.len() ==> items[i] == Scalar::String(#[trigger] done[i]),
        stands(file, position, scalars(items, done.len() as int)),
    ensures
        grammar::texts_from(rules, file, position, items.len(), done) == found(
            Value::Array { element_type: MetadataType::String, items },
            position + scalars(items, done.len() as int).len(),
        ),
    decreases items.len() - done.len(),
{
    let at = done.len() as int;
    if at < items.len() {
        assert(kind_of(items[at]) == item_kind(MetadataType::String));
        let characters = items[at]->String_0;
        lemma_stand_both(file, position, scalar(items[at]), scalars(items, at + 1));
        lemma_text(rules, file, position, "metadata array string"@, characters);
        lemma_texts_written(
            rules,
            file,
            position + text(characters).len(),
            items,
            done.push(characters),
        );
    } else {
        assert(grammar::text_array(done)->items =~= items);
    }
}

proof fn lemma_texts_read(
    rules: Rules,
    file: Seq<u8>,
    position: nat,
    count: nat,
    done: Seq<Seq<char>>,
)
    requires
        whole(rules, file),
        position <= file.len(),
        done.len() <= count,
        grammar::texts_from(rules, file, position, count, done) is Ok,
        forall|i: int|
            0 <= i < done.len() ==> utf8::encode_utf8(#[trigger] done[i]).len()
                <= rules.limits.max_string_bytes,
    ensures
        ({
            let read = grammar::texts_from(rules, file, position, count, done)->Ok_0;
            &&& read.value matches Value::Array { element_type, items } && {
                &&& element_type == MetadataType::String
                &&& items.len() == count
                &&& forall|i: int|
                    0 <= i < done.len() ==> items[i] == Scalar::String(#[trigger] done[i])
                &&& forall|i: int|
                    0 <= i < items.len() ==> (#[trigger] items[i] matches Scalar::String(t)
                        && utf8::encode_utf8(t).len() <= rules.limits.max_string_bytes)
                &&& stands(file, position, scalars(items, done.len() as int))
                &&& read.end == position + scalars(items, done.len() as int).len()
            }
        }),
    decreases count - done.len(),
{
    if done.len() < count {
        let field = "metadata array string"@;
        lemma_text(rules, file, position, field, seq![]);
        let read = grammar::text_at(rules, file, position, field)->Ok_0;
        let longer = done.push(read.value);
        lemma_texts_read(rules, file, read.end, count, longer);
        let items = grammar::texts_from(rules, file, position, count, done)->Ok_0.value->items;
        let at = done.len() as int;
        assert(items[at] == Scalar::String(longer[at]));
        assert forall|i: int| 0 <= i < done.len() implies items[i] == Scalar::String(
            #[trigger] done[i],
        ) by {
            assert(longer[i] == done[i]);
        }
        lemma_stand_both(file, position, scalar(items[at]), scalars(items, at + 1));
    }
}

/// Texts take eight bytes each at least.
proof fn lemma_texts_long(items: Seq<Scalar>, from: int)
    requires
        0 <= from <= items.len(),
        forall|i: int| 0 <= i < items.len() ==> #[trigger] items[i] is String,
    ensures
        scalars(items, from).len() >= 8 * (items.len() - from),
    decreases items.len() - from,
{
    if from < items.len() {
        lemma_texts_long(items, from + 1);
        assert(items[from] is String);
    }
}

/// Scalars take one byte each at least.
proof fn lemma_scalars_long(items: Seq<Scalar>, from: int)
    requires
        0 <= from <= items.len(),
    ensures
        scalars(items, from).len() >= items.len() - from,
    decreases items.len() - from,
{
    if from < items.len() {
        lemma_scalars_long(items, from + 1);
    }
}

proof fn lemma_items(
    rules: Rules,
    file: Seq<u8>,
    position: nat,
    element_type: MetadataType,
    count: nat,
    items: Seq<Scalar>,
)
    requires
        whole(rules, file),
        position <= file.len(),
        element_type != MetadataType::Array,
        count <= rules.limits.max_array_elements,
    ensures
        items_allowed(rules, element_type, items) && count == items.len() && stands(
            file,
            position,
            scalars(items, 0),
        ) ==> grammar::items_at(rules, file, position, element_type, count) == found(
            Value::Array { element_type, items },
            position + scalars(items, 0).len(),
        ),
        grammar::items_at(rules, file, position, element_type, count) matches Ok(read) ==> {
            &&& read.value matches Value::Array { element_type: kind, items } && {
                &&& kind == element_type
                &&& items.len() == count
                &&& items_allowed(rules, element_type, items)
                &&& stands(file, position, scalars(items, 0))
                &&& read.end == position + scalars(items, 0).len()
            }
        },
{
    reveal(grammar::items_at);
    reveal(grammar::fixed_array_at);
    reveal(grammar::bytes_at);
    let written = items_allowed(rules, element_type, items) && count == items.len() && stands(
        file,
        position,
        scalars(items, 0),
    );
    if element_type == MetadataType::String {
        if written {
            assert forall|i: int| 0 <= i < items.len() implies #[trigger] items[i] is String by {
                assert(kind_of(items[i]) == item_kind(element_type));
            }
            lemma_texts_long(items, 0);
            lemma_texts_written(rules, file, position, items, seq![]);
        }
        if grammar::items_at(rules, file, position, element_type, count) is Ok {
            lemma_texts_read(rules, file, position, count, seq![]);
        }
    } else {
        if written {
            lemma_items_decoded(element_type, items);
            lemma_stands(file, position, scalars(items, 0));
        }
        if grammar::items_at(rules, file, position, element_type, count) is Ok {
            let width = types::fixed_width_of(element_type)->0;
            let part = file.subrange(position as int, (position + count * width) as int);
            let decoded = types::fixed_items(element_type, count, part);
            lemma_items_encoded(element_type, count, part, 0);
            assert(0 * width == 0);
            assert(part.subrange(0, part.len() as int) =~= part);
            lemma_stands(file, position, part);
            assert forall|i: int| 0 <= i < decoded.len() implies kind_of(#[trigger] decoded[i])
                == item_kind(element_type) && !(decoded[i] is String) by {
                lemma_part(i, count as int, width as int);
                lemma_flags(part);
                lemma_encoded(element_type, part.subrange(i * width, (i + 1) * width));
            }
        }
    }
}

proof fn lemma_part(i: int, count: int, width: int)
    requires
        0 <= i < count,
        width >= 0,
    ensures
        0 <= i * width,
        (i + 1) * width == i * width + width,
        (i + 1) * width <= count * width,
{
    assert(0 <= i * width && (i + 1) * width == i * width + width && (i + 1) * width <= count
        * width) by (nonlinear_arith)
        requires
            0 <= i < count,
            width >= 0,
    ;
}

/// A metadata value that may stand in a file.
pub open spec fn value_allowed(rules: Rules, value: Value) -> bool {
    match value {
        Value::Scalar(Scalar::String(t)) => utf8::encode_utf8(t).len()
            <= rules.limits.max_string_bytes,
        Value::Scalar(_) => true,
        Value::Array { element_type, items } => items_allowed(rules, element_type, items),
    }
}

/// The number that announces a kind of values tells which kind.
proof fn lemma_kinds(code: u32, element_type: MetadataType)
    ensures
        types::metadata_type_of(code) == Some(element_type) <==> code == item_kind(element_type),
{
}

proof fn lemma_array(
    rules: Rules,
    file: Seq<u8>,
    position: nat,
    element_type: MetadataType,
    items: Seq<Scalar>,
)
    requires
        whole(rules, file),
        position <= file.len(),
    ensures
        ({
            let part = number(item_kind(element_type), 4) + (number(items.len(), 8) + scalars(
                items,
                0,
            ));
            items_allowed(rules, element_type, items) && stands(file, position, part)
                ==> grammar::array_at(rules, file, position) == found(
                Value::Array { element_type, items },
                position + part.len(),
            )
        }),
        grammar::array_at(rules, file, position) matches Ok(read) ==> {
            &&& read.value matches Value::Array { element_type, items } && {
                let part = number(item_kind(element_type), 4) + (number(items.len(), 8) + scalars(
                    items,
                    0,
                ));
                &&& items_allowed(rules, element_type, items)
                &&& stands(file, position, part)
                &&& read.end == position + part.len()
            }
        },
{
    reveal(grammar::array_at);
    reveal(grammar::array_length_at);
    reveal(grammar::count_at);
    lemma_scales();
    let kind = number(item_kind(element_type), 4);
    let length = number(items.len(), 8);
    let rest = scalars(items, 0);
    lemma_number(rules, file, position, 4, item_kind(element_type));
    lemma_number(rules, file, position + 4, 8, items.len());
    lemma_stand_both(file, position, kind, length + rest);
    lemma_stand_both(file, position + 4, length, rest);
    lemma_kinds(item_kind(element_type) as u32, element_type);
    if items_allowed(rules, element_type, items) && stands(
        file,
        position,
        kind + (length + rest),
    ) {
        lemma_scalars_long(items, 0);
        lemma_items(rules, file, position + 12, element_type, items.len(), items);
        assert(position + (kind + (length + rest)).len() == position + 12 + rest.len());
    }
    if let Ok(read) = grammar::array_at(rules, file, position) {
        let code = grammar::number_at(rules, file, position, 4)->Ok_0;
        let read_type = types::metadata_type_of(code.value as u32)->0;
        lemma_kinds(code.value as u32, read_type);
        let count = grammar::number_at(rules, file, position + 4, 8)->Ok_0;
        lemma_items(rules, file, position + 12, read_type, count.value, seq![]);
        let found_items = read.value->items;
        let read_rest = scalars(found_items, 0);
        lemma_stand_both(
            file,
            position,
            number(code.value, 4),
            number(count.value, 8) + read_rest,
        );
        lemma_stand_both(file, position + 4, number(count.value, 8), read_rest);
    }
}

proof fn lemma_value(rules: Rules, file: Seq<u8>, position: nat, value: Value)
    requires
        whole(rules, file),
    ensures
        value_allowed(rules, value) && stands(file, position, metadata_value(value))
            ==> grammar::value_at(rules, file, position) == found(
            value,
            position + metadata_value(value).len(),
        ),
        grammar::value_at(rules, file, position) matches Ok(read) ==> {
            &&& value_allowed(rules, read.value)
            &&& stands(file, position, metadata_value(read.value))
            &&& read.end == position + metadata_value(read.value).len()
        },
{
    reveal(grammar::value_at);
    lemma_scales();
    if value_allowed(rules, value) && stands(file, position, metadata_value(value)) {
        match value {
            Value::Scalar(item) => {
                lemma_number(rules, file, position, 4, kind_of(item));
                lemma_stand_both(file, position, number(kind_of(item), 4), scalar(item));
                let value_type = types::scalar_type(item);
                lemma_kinds(kind_of(item) as u32, value_type);
                lemma_scalar(rules, file, position + 4, value_type, item);
            },
            Value::Array { element_type, items } => {
                let rest = number(item_kind(element_type), 4) + (number(items.len(), 8)
                    + scalars(items, 0));
                lemma_number(rules, file, position, 4, 9);
                lemma_stand_both(file, position, number(9, 4), rest);
                lemma_kinds(9, MetadataType::Array);
                lemma_array(rules, file, position + 4, element_type, items);
            },
        }
    }
    if let Ok(read) = grammar::value_at(rules, file, position) {
        lemma_number(rules, file, position, 4, 0);
        let code = grammar::number_at(rules, file, position, 4)->Ok_0;
        let value_type = types::metadata_type_of(code.value as u32)->0;
        lemma_kinds(code.value as u32, value_type);
        if value_type == MetadataType::Array {
            lemma_array(rules, file, position + 4, value_type, seq![]);
            let element_type = read.value->element_type;
            let items = read.value->items;
            let rest = number(item_kind(element_type), 4) + (number(items.len(), 8) + scalars(
                items,
                0,
            ));
            lemma_stand_both(file, position, number(9, 4), rest);
        } else {
            lemma_scalar(rules, file, position + 4, value_type, Scalar::U8(0));
            let item = read.value->Scalar_0;
            lemma_stand_both(file, position, number(code.value, 4), scalar(item));
        }
    }
}

/// A letter, a digit or an underscore.
pub open spec fn is_word_character(c: char) -> bool {
    ||| 'a' <= c && c <= 'z'
    ||| '0' <= c && c <= '9'
    ||| c == '_'
}

/// A metadata key: words with single periods between them.
pub open spec fn is_key(key: Seq<char>) -> bool {
    &&& key.len() > 0
    &&& is_word_character(key[0])
    &&& is_word_character(key.last())
    &&& forall|i: int|
        0 <= i < key.len() ==> is_word_character(#[trigger] key[i]) || key[i] == '.'
    &&& forall|i: int, j: int|
        0 <= i < j < key.len() && j == i + 1 ==> is_word_character(#[trigger] key[i])
            || is_word_character(#[trigger] key[j])
}

proof fn lemma_key(key: Seq<char>)
    ensures
        is_key(key) <==> grammar::is_metadata_key(key),
{
    assert forall|c: char| is_word_character(c) <==> #[trigger] grammar::is_key_character(c) by {}
    if is_key(key) {
        assert forall|i: int| 0 <= i < key.len() implies grammar::is_key_character(#[trigger] key[i])
            || {
            &&& key[i] == '.'
            &&& 0 < i < key.len() - 1
            &&& grammar::is_key_character(key[i - 1])
            &&& grammar::is_key_character(key[i + 1])
        } by {
            if !is_word_character(key[i]) {
                assert(i != 0 && i != key.len() - 1);
                let before = i - 1;
                let behind = i + 1;
                assert(is_word_character(key[before]) || is_word_character(key[i]));
                assert(is_word_character(key[i]) || is_word_character(key[behind]));
            }
        }
    }
    if grammar::is_metadata_key(key) {
        assert(grammar::is_key_character(key[0]) || key[0] == '.');
        let last = key.len() - 1;
        assert(grammar::is_key_character(key[last]) || key[last] == '.');
        assert forall|i: int, j: int| 0 <= i < j < key.len() && j == i + 1 implies
            is_word_character(#[trigger] key[i]) || is_word_character(#[trigger] key[j]) by {
            if !is_word_character(key[i]) {
                assert(grammar::is_key_character(key[i + 1]));
            }
        }
    }
}

/// The key under which the alignment is stated.
pub open spec fn alignment_key() -> Seq<char> {
    "general.alignment"@
}

/// The entries may stand in a file: keys are well-formed, within 65535 bytes and
/// different, values are allowed, and the alignment, if stated, is a 32-bit number.
pub open spec fn entries_allowed(rules: Rules, items: Seq<Entry>) -> bool {
    &&& items.len() <= rules.limits.max_metadata_entries
    &&& forall|i: int| 0 <= i < items.len() ==> entry_allowed(rules, #[trigger] items[i])
    &&& forall|i: int, j: int|
        0 <= i < j < items.len() ==> (#[trigger] items[i]).key != (#[trigger] items[j]).key
}

/// An entry may stand in a file, on its own.
pub open spec fn entry_allowed(rules: Rules, item: Entry) -> bool {
    &&& is_key(item.key)
    &&& utf8::encode_utf8(item.key).len() <= 65_535
    &&& utf8::encode_utf8(item.key).len() <= rules.limits.max_string_bytes
    &&& value_allowed(rules, item.value)
    &&& item.key == alignment_key() ==> item.value is Scalar && item.value->Scalar_0 is U32
}

/// Characters take a byte each at least.
proof fn lemma_characters_long(characters: Seq<char>)
    ensures
        utf8::encode_utf8(characters).len() == 0 <==> characters.len() == 0,
{
    if characters.len() > 0 {
        utf8::encode_utf8_first_scalar(characters);
    }
}

proof fn lemma_entry(
    rules: Rules,
    file: Seq<u8>,
    position: nat,
    done: Seq<Entry>,
    item: Entry,
)
    requires
        whole(rules, file),
    ensures
        entry_allowed(rules, item) && !grammar::has_key(done, item.key) && stands(
            file,
            position,
            entry(item),
        ) ==> grammar::entry_at(rules, file, position, done) == found(
            item,
            position + entry(item).len(),
        ),
        grammar::entry_at(rules, file, position, done) matches Ok(read) ==> {
            &&& entry_allowed(rules, read.value)
            &&& !grammar::has_key(done, read.value.key)
            &&& stands(file, position, entry(read.value))
            &&& read.end == position + entry(read.value).len()
        },
{
    reveal(grammar::entry_with_key);
    reveal(grammar::entry_with_value);
    reveal(grammar::key_fault);
    let field = "metadata key"@;
    lemma_text(rules, file, position, field, item.key);
    lemma_stand_both(file, position, text(item.key), metadata_value(item.value));
    lemma_value(rules, file, position + text(item.key).len(), item.value);
    lemma_key(item.key);
    lemma_characters_long(item.key);
    if let Ok(read) = grammar::entry_at(rules, file, position, done) {
        let key = grammar::text_at(rules, file, position, field)->Ok_0;
        lemma_key(key.value);
        lemma_value(rules, file, key.end, Value::Scalar(Scalar::U8(0)));
        lemma_stand_both(file, position, text(key.value), metadata_value(read.value.value));
    }
}

proof fn lemma_entries_written(
    rules: Rules,
    file: Seq<u8>,
    position: nat,
    items: Seq<Entry>,
    from: int,
)
    requires
        whole(rules, file),
        entries_allowed(rules, items),
        0 <= from <= items.len(),
        stands(file, position, entries(items, from)),
    ensures
        grammar::entries_from(rules, file, position, items.len(), items.take(from)) == found(
            items,
            position + entries(items, from).len(),
        ),
        entries(items, from).len() >= 12 * (items.len() - from),
    decreases items.len() - from,
{
    let done = items.take(from);
    if from < items.len() {
        let item = items[from];
        assert(entry_allowed(rules, item));
        lemma_stand_both(file, position, entry(item), entries(items, from + 1));
        lemma_entry(rules, file, position, done, item);
        if grammar::has_key(done, item.key) {
            let i = choose|i: int| 0 <= i < done.len() && #[trigger] done[i].key == item.key;
            assert(items[i].key != items[from].key);
        }
        lemma_entries_written(rules, file, position + entry(item).len(), items, from + 1);
        assert(done.push(item) =~= items.take(from + 1));
        assert(text(item.key).len() >= 8);
    } else {
        assert(done =~= items);
    }
}

proof fn lemma_entries_read(
    rules: Rules,
    file: Seq<u8>,
    position: nat,
    count: nat,
    done: Seq<Entry>,
)
    requires
        whole(rules, file),
        position <= file.len(),
        done.len() <= count <= rules.limits.max_metadata_entries,
        entries_allowed(rules, done),
        grammar::entries_from(rules, file, position, count, done) is Ok,
    ensures
        ({
            let read = grammar::entries_from(rules, file, position, count, done)->Ok_0;
            &&& read.value.len() == count
            &&& done.is_prefix_of(read.value)
            &&& entries_allowed(rules, read.value)
            &&& stands(file, position, entries(read.value, done.len() as int))
            &&& read.end == position + entries(read.value, done.len() as int).len()
        }),
    decreases count - done.len(),
{
    if done.len() < count {
        lemma_entry(
            rules,
            file,
            position,
            done,
            Entry { key: seq![], value: Value::Scalar(Scalar::U8(0)) },
        );
        let item = grammar::entry_at(rules, file, position, done)->Ok_0;
        let longer = done.push(item.value);
        assert forall|i: int, j: int| 0 <= i < j < longer.len() implies (#[trigger] longer[i]).key
            != (#[trigger] longer[j]).key by {
            assert(longer[i] == done[i]);
            if j == done.len() {
                assert(done[i].key != item.value.key);
            }
        }
        lemma_entries_read(rules, file, item.end, count, longer);
        let all = grammar::entries_from(rules, file, position, count, done)->Ok_0.value;
        let at = done.len() as int;
        assert(longer[at] == all[at]);
        assert(done.is_prefix_of(all)) by {
            assert(longer.take(at) =~= done);
            assert(all.take(longer.len() as int).take(at) =~= all.take(at));
        }
        lemma_stand_both(file, position, entry(all[at]), entries(all, at + 1));
    }
}

/// The product of all dimensions.
pub open spec fn elements(shape: Seq<u64>) -> nat
    decreases shape.len(),
{
    if shape.len() == 0 {
        1
    } else {
        shape[0] as nat * elements(shape.drop_first())
    }
}

proof fn lemma_elements(shape: Seq<u64>)
    ensures
        elements(shape) == grammar::element_count(shape),
    decreases shape.len(),
{
    if shape.len() == 1 {
        assert(shape.drop_first() =~= seq![]);
        assert(shape.drop_last() =~= seq![]);
        reveal_with_fuel(elements, 2);
        reveal_with_fuel(grammar::element_count, 2);
        assert(shape[0] as nat * 1 == 1 * shape[0] as nat);
    } else if shape.len() > 1 {
        let rest = shape.drop_first();
        let front = shape.drop_last();
        assert(rest.drop_last() =~= front.drop_first());
        lemma_elements(rest);
        lemma_elements(front);
        lemma_elements(rest.drop_last());
        let first = shape[0] as nat;
        let last = shape.last() as nat;
        let middle = elements(rest.drop_last());
        assert(first * (middle * last) == (first * middle) * last) by (nonlinear_arith);
        assert(front[0] == shape[0] && rest.last() == shape.last());
    }
}

/// A shape of at most four dimensions. No dimension, and no product of the first
/// ones, is above the largest signed 64-bit number.
pub open spec fn shape_allowed(shape: Seq<u64>) -> bool {
    &&& shape.len() <= 4
    &&& forall|i: int| 0 <= i < shape.len() ==> #[trigger] shape[i] <= 0x7fff_ffff_ffff_ffff
    &&& forall|k: int|
        0 <= k <= shape.len() ==> elements(#[trigger] shape.take(k)) <= 0x7fff_ffff_ffff_ffff
}

/// The number of elements in a row.
pub open spec fn row(shape: Seq<u64>) -> nat {
    if shape.len() > 0 {
        shape[0] as nat
    } else {
        1
    }
}

/// A row of the tensor table may stand in a file, on its own: its blocks hold whole
/// rows, and its length is that of its blocks.
pub open spec fn tensor_allowed(rules: Rules, item: Tensor) -> bool {
    let name = utf8::encode_utf8(item.name);
    let fields = anatomy::block_fields(item.value_type);
    let weights = anatomy::weights_in_block(item.value_type);
    &&& name.len() <= 63
    &&& name.len() <= rules.limits.max_string_bytes
    &&& forall|i: int| 0 <= i < name.len() ==> #[trigger] name[i] != 0
    &&& shape_allowed(item.shape)
    &&& fields.len() > 0
    &&& row(item.shape) % weights == 0
    &&& item.byte_len * weights == elements(item.shape) * anatomy::total(fields)
    &&& item.byte_len <= u64::MAX
}

/// The data of a tensor starts at the first aligned place behind `end`, and its
/// padding ends within 64 bits.
pub open spec fn follows(end: nat, alignment: u32, item: Tensor) -> bool {
    &&& item.offset % alignment as nat == 0
    &&& end <= item.offset < end + alignment
    &&& item.offset + item.byte_len + alignment <= 0x1_0000_0000_0000_0000
}

/// The end of the data of the tensors before number `at`.
pub open spec fn end_before(items: Seq<Tensor>, at: int) -> nat {
    if at > 0 {
        items[at - 1].offset + items[at - 1].byte_len
    } else {
        0
    }
}

/// The rows of the tensor table may stand in a file: names are different, and the
/// data of each tensor follows that of the one before it.
pub open spec fn tensors_allowed(rules: Rules, alignment: u32, items: Seq<Tensor>) -> bool {
    &&& items.len() <= rules.limits.max_tensors
    &&& forall|i: int|
        0 <= i < items.len() ==> {
            &&& tensor_allowed(rules, #[trigger] items[i])
            &&& follows(end_before(items, i), alignment, items[i])
        }
    &&& forall|i: int, j: int|
        0 <= i < j < items.len() ==> (#[trigger] items[i]).name != (#[trigger] items[j]).name
}

proof fn lemma_shape_written(
    rules: Rules,
    file: Seq<u8>,
    position: nat,
    shape: Seq<u64>,
    from: int,
)
    requires
        whole(rules, file),
        shape_allowed(shape),
        0 <= from <= shape.len(),
        stands(file, position, dimensions(shape, from)),
    ensures
        grammar::shape_from(rules, file, position, shape.len(), shape.take(from)) == found(
            shape,
            position + dimensions(shape, from).len(),
        ),
    decreases shape.len() - from,
{
    let done = shape.take(from);
    if from < shape.len() {
        lemma_scales();
        let rest = dimensions(shape, from + 1);
        lemma_stand_both(file, position, number(shape[from] as nat, 8), rest);
        lemma_number(rules, file, position, 8, shape[from] as nat);
        lemma_shape_written(rules, file, position + 8, shape, from + 1);
        assert(done.push(shape[from]) =~= shape.take(from + 1));
        lemma_elements(shape.take(from + 1));
        assert(grammar::dimension_fault(done, shape[from] as nat) is None);
    } else {
        assert(done =~= shape);
    }
}

proof fn lemma_shape_read(
    rules: Rules,
    file: Seq<u8>,
    position: nat,
    count: nat,
    done: Seq<u64>,
)
    requires
        whole(rules, file),
        position <= file.len(),
        done.len() <= count <= 4,
        shape_allowed(done),
        grammar::shape_from(rules, file, position, count, done) is Ok,
    ensures
        ({
            let read = grammar::shape_from(rules, file, position, count, done)->Ok_0;
            &&& read.value.len() == count
            &&& done.is_prefix_of(read.value)
            &&& shape_allowed(read.value)
            &&& stands(file, position, dimensions(read.value, done.len() as int))
            &&& read.end == position + dimensions(read.value, done.len() as int).len()
        }),
    decreases count - done.len(),
{
    if done.len() < count {
        lemma_scales();
        lemma_number(rules, file, position, 8, 0);
        let dimension = grammar::number_at(rules, file, position, 8)->Ok_0;
        let longer = done.push(dimension.value as u64);
        let at = done.len() as int;
        lemma_elements(longer);
        assert forall|k: int| 0 <= k <= longer.len() implies elements(#[trigger] longer.take(k))
            <= 0x7fff_ffff_ffff_ffff by {
            if k <= at {
                assert(longer.take(k) =~= done.take(k));
            } else {
                assert(longer.take(k) =~= longer);
            }
        }
        lemma_shape_read(rules, file, position + 8, count, longer);
        let all = grammar::shape_from(rules, file, position, count, done)->Ok_0.value;
        assert(longer[at] == all[at]);
        assert(done.is_prefix_of(all)) by {
            assert(longer.take(at) =~= done);
            assert(all.take(longer.len() as int).take(at) =~= all.take(at));
        }
        lemma_stand_both(file, position, number(all[at] as nat, 8), dimensions(all, at + 1));
    }
}

/// Lengths are those of the blocks.
proof fn lemma_stored(shape: Seq<u64>, code: u32, length: nat)
    requires
        anatomy::block_fields(code).len() > 0,
        row(shape) % anatomy::weights_in_block(code) == 0,
    ensures
        length == grammar::stored_bytes(shape, code) <==> length * anatomy::weights_in_block(code)
            == elements(shape) * anatomy::total(anatomy::block_fields(code)),
{
    anatomy::lemma_sizes(code);
    lemma_elements(shape);
    let count = elements(shape);
    let weights = anatomy::weights_in_block(code);
    let size = types::type_size_of(code);
    assert(weights > 0);
    assert(count % weights == 0) by {
        if shape.len() > 0 {
            let rest = elements(shape.drop_first());
            let first = shape[0] as nat;
            div_mod::lemma_fundamental_div_mod(first as int, weights as int);
            let whole_blocks = first / weights;
            assert(first * rest == (whole_blocks * rest) * weights) by (nonlinear_arith)
                requires
                    first == weights * whole_blocks,
            ;
            div_mod::lemma_mod_multiples_basic((whole_blocks * rest) as int, weights as int);
        }
    }
    div_mod::lemma_fundamental_div_mod(count as int, weights as int);
    let blocks = count / weights;
    let stored = blocks * size;
    assert(stored * weights == count * size) by (nonlinear_arith)
        requires
            stored == blocks * size,
            count == weights * blocks,
    ;
    if length * weights == stored * weights {
        assert(length == stored) by (nonlinear_arith)
            requires
                length * weights == stored * weights,
                weights > 0,
        ;
    }
}

/// Where the data of a tensor starts.
proof fn lemma_placed(expected: nat, end: nat, alignment: u32, item: Tensor)
    requires
        power2::is_pow2(alignment as int),
        expected % alignment as nat == 0,
        end <= expected < end + alignment,
        item.offset <= u64::MAX,
    ensures
        follows(end, alignment, item) <==> grammar::placement_fault(
            expected,
            item.offset,
            item.byte_len,
            alignment,
        ) is None,
        follows(end, alignment, item) ==> {
            let next = expected + grammar::align_up(item.byte_len, alignment as nat);
            &&& next % alignment as nat == 0
            &&& item.offset + item.byte_len <= next < item.offset + item.byte_len + alignment
        },
{
    reveal(power2::is_pow2);
    let a = alignment as int;
    assert(a > 0);
    if item.offset % alignment as nat == 0 && end <= item.offset < end + alignment {
        laws::lemma_multiples_apart(item.offset as int, expected as int, a);
        laws::lemma_multiples_apart(expected as int, item.offset as int, a);
        assert(item.offset == expected);
    }
    laws::lemma_align_up_bounds(item.byte_len, alignment as nat);
    let padded = grammar::align_up(item.byte_len, alignment as nat);
    let next = (expected + padded) as int;
    assert(next % a == 0) by {
        div_mod::lemma_add_mod_noop(expected as int, padded as int, a);
        div_mod::lemma_small_mod(0, alignment as nat);
    }
    laws::lemma_power_divides(a);
    laws::lemma_multiples_apart(next, 0x1_0000_0000_0000_0000, a);
}

proof fn lemma_tensor_parts(file: Seq<u8>, position: nat, item: Tensor)
    ensures
        ({
            let shape_at = position + text(item.name).len() + 4;
            let type_at = shape_at + dimensions(item.shape, 0).len();
            &&& stands(file, position, tensor(item)) <==> {
                &&& stands(file, position, text(item.name))
                &&& stands(
                    file,
                    position + text(item.name).len(),
                    number(item.shape.len(), 4),
                )
                &&& stands(file, shape_at, dimensions(item.shape, 0))
                &&& stands(file, type_at, number(item.value_type as nat, 4))
                &&& stands(file, type_at + 4, number(item.offset, 8))
            }
            &&& position + tensor(item).len() == type_at + 12
        }),
{
    let name = text(item.name);
    let rank = number(item.shape.len(), 4);
    let shape = dimensions(item.shape, 0);
    let code = number(item.value_type as nat, 4);
    let offset = number(item.offset, 8);
    lemma_stand_both(file, position, name, rank + (shape + (code + offset)));
    lemma_stand_both(file, position + name.len(), rank, shape + (code + offset));
    lemma_stand_both(file, position + name.len() + 4, shape, code + offset);
    lemma_stand_both(file, position + name.len() + 4 + shape.len(), code, offset);
}

#[verifier::rlimit(30)]
proof fn lemma_tensor_written(
    rules: Rules,
    file: Seq<u8>,
    position: nat,
    alignment: u32,
    done: Seq<Tensor>,
    item: Tensor,
)
    requires
        whole(rules, file),
        tensor_allowed(rules, item),
        item.offset <= u64::MAX,
        !grammar::has_name(done, item.name),
        grammar::placement_fault(
            grammar::data_size_of(done, alignment),
            item.offset,
            item.byte_len,
            alignment,
        ) is None,
        stands(file, position, tensor(item)),
    ensures
        grammar::tensor_at(rules, file, position, alignment, done) == found(
            item,
            position + tensor(item).len(),
        ),
{
    reveal(grammar::tensor_with_name);
    reveal(grammar::tensor_shape_at);
    reveal(grammar::tensor_with_shape);
    reveal(grammar::tensor_with_type);
    reveal(grammar::name_fault);
    lemma_scales();
    lemma_tensor_parts(file, position, item);
    let field = "tensor name"@;
    let rank_at = position + text(item.name).len();
    let type_at = rank_at + 4 + dimensions(item.shape, 0).len();
    lemma_text(rules, file, position, field, item.name);
    lemma_number(rules, file, rank_at, 4, item.shape.len());
    lemma_shape_written(rules, file, rank_at + 4, item.shape, 0);
    assert(item.shape.take(0) =~= seq![]);
    lemma_number(rules, file, type_at, 4, item.value_type as nat);
    lemma_number(rules, file, type_at + 4, 8, item.offset);
    anatomy::lemma_sizes(item.value_type);
    lemma_stored(item.shape, item.value_type, item.byte_len);
    let name = utf8::encode_utf8(item.name);
    assert(!name.contains(0));
    assert(grammar::name_fault(done, item.name) is None);
    assert(grammar::storage_fault(item.shape, item.value_type) is None);
}

#[verifier::rlimit(30)]
proof fn lemma_tensor_read(
    rules: Rules,
    file: Seq<u8>,
    position: nat,
    alignment: u32,
    done: Seq<Tensor>,
)
    requires
        whole(rules, file),
        grammar::tensor_at(rules, file, position, alignment, done) is Ok,
    ensures
        ({
            let read = grammar::tensor_at(rules, file, position, alignment, done)->Ok_0;
            &&& tensor_allowed(rules, read.value)
            &&& read.value.offset <= u64::MAX
            &&& !grammar::has_name(done, read.value.name)
            &&& grammar::placement_fault(
                grammar::data_size_of(done, alignment),
                read.value.offset,
                read.value.byte_len,
                alignment,
            ) is None
            &&& stands(file, position, tensor(read.value))
            &&& read.end == position + tensor(read.value).len()
        }),
{
    reveal(grammar::tensor_with_name);
    reveal(grammar::tensor_shape_at);
    reveal(grammar::tensor_with_shape);
    reveal(grammar::tensor_with_type);
    reveal(grammar::name_fault);
    lemma_scales();
    let field = "tensor name"@;
    let item = grammar::tensor_at(rules, file, position, alignment, done)->Ok_0.value;
    lemma_text(rules, file, position, field, seq![]);
    let name = grammar::text_at(rules, file, position, field)->Ok_0;
    lemma_number(rules, file, name.end, 4, 0);
    let rank = grammar::number_at(rules, file, name.end, 4)->Ok_0;
    assert(shape_allowed(seq![])) by {
        assert forall|k: int| 0 <= k <= 0 implies elements(#[trigger] Seq::<u64>::empty().take(k))
            <= 0x7fff_ffff_ffff_ffff by {
            assert(Seq::<u64>::empty().take(k) =~= Seq::empty());
        }
    }
    lemma_shape_read(rules, file, rank.end, rank.value, seq![]);
    let shape = grammar::shape_from(rules, file, rank.end, rank.value, seq![])->Ok_0;
    lemma_number(rules, file, shape.end, 4, 0);
    let code = grammar::number_at(rules, file, shape.end, 4)->Ok_0;
    lemma_number(rules, file, shape.end + 4, 8, 0);
    anatomy::lemma_sizes(item.value_type);
    lemma_stored(item.shape, item.value_type, item.byte_len);
    let bytes = utf8::encode_utf8(item.name);
    assert forall|i: int| 0 <= i < bytes.len() implies #[trigger] bytes[i] != 0 by {
        assert(bytes.contains(bytes[i]));
    }
    lemma_tensor_parts(file, position, item);
}

/// The padding of the data of the tensors ends at the first aligned place.
pub open spec fn padded(items: Seq<Tensor>, alignment: u32, size: nat) -> bool {
    let end = end_before(items, items.len() as int);
    &&& size % alignment as nat == 0
    &&& end <= size < end + alignment
}

proof fn lemma_tensors_written(
    rules: Rules,
    file: Seq<u8>,
    position: nat,
    alignment: u32,
    items: Seq<Tensor>,
    from: int,
)
    requires
        whole(rules, file),
        power2::is_pow2(alignment as int),
        tensors_allowed(rules, alignment, items),
        0 <= from <= items.len(),
        padded(items.take(from), alignment, grammar::data_size_of(items.take(from), alignment)),
        stands(file, position, tensors(items, from)),
    ensures
        grammar::tensors_from(
            rules,
            file,
            position,
            alignment,
            items.len(),
            items.take(from),
        ) == found(items, position + tensors(items, from).len()),
        padded(items, alignment, grammar::data_size_of(items, alignment)),
        tensors(items, from).len() >= 24 * (items.len() - from),
    decreases items.len() - from,
{
    let done = items.take(from);
    if from < items.len() {
        let item = items[from];
        assert(tensor_allowed(rules, item));
        lemma_stand_both(file, position, tensor(item), tensors(items, from + 1));
        assert(end_before(done, done.len() as int) == end_before(items, from));
        let size = grammar::data_size_of(done, alignment);
        lemma_placed(size, end_before(items, from), alignment, item);
        if grammar::has_name(done, item.name) {
            let i = choose|i: int| 0 <= i < done.len() && #[trigger] done[i].name == item.name;
            assert(items[i].name != items[from].name);
        }
        lemma_tensor_written(rules, file, position, alignment, done, item);
        assert(done.push(item) =~= items.take(from + 1));
        assert(item.offset == size);
        lemma_tensors_written(
            rules,
            file,
            position + tensor(item).len(),
            alignment,
            items,
            from + 1,
        );
        assert(text(item.name).len() >= 8);
        assert(tensor(item).len() >= 24);
    } else {
        assert(done =~= items);
    }
}

proof fn lemma_tensors_read(
    rules: Rules,
    file: Seq<u8>,
    position: nat,
    alignment: u32,
    count: nat,
    done: Seq<Tensor>,
)
    requires
        whole(rules, file),
        position <= file.len(),
        power2::is_pow2(alignment as int),
        done.len() <= count <= rules.limits.max_tensors,
        tensors_allowed(rules, alignment, done),
        padded(done, alignment, grammar::data_size_of(done, alignment)),
        grammar::tensors_from(rules, file, position, alignment, count, done) is Ok,
    ensures
        ({
            let read = grammar::tensors_from(
                rules,
                file,
                position,
                alignment,
                count,
                done,
            )->Ok_0;
            &&& read.value.len() == count
            &&& done.is_prefix_of(read.value)
            &&& tensors_allowed(rules, alignment, read.value)
            &&& padded(
                read.value,
                alignment,
                grammar::data_size_of(read.value, alignment),
            )
            &&& stands(file, position, tensors(read.value, done.len() as int))
            &&& read.end == position + tensors(read.value, done.len() as int).len()
        }),
    decreases count - done.len(),
{
    if done.len() < count {
        lemma_tensor_read(rules, file, position, alignment, done);
        let read = grammar::tensor_at(rules, file, position, alignment, done)->Ok_0;
        let item = read.value;
        let longer = done.push(item);
        let at = done.len() as int;
        let size = grammar::data_size_of(done, alignment);
        lemma_placed(size, end_before(done, at), alignment, item);
        assert forall|i: int| 0 <= i < longer.len() implies tensor_allowed(
            rules,
            #[trigger] longer[i],
        ) && follows(end_before(longer, i), alignment, longer[i]) by {
            assert(i < at ==> longer[i] == done[i]);
            assert(end_before(longer, i) == end_before(done, i));
        }
        assert forall|i: int, j: int| 0 <= i < j < longer.len() implies (#[trigger] longer[i]).name
            != (#[trigger] longer[j]).name by {
            assert(longer[i] == done[i]);
            if j == at {
                assert(done[i].name != item.name);
            }
        }
        lemma_tensors_read(rules, file, read.end, alignment, count, longer);
        let all = grammar::tensors_from(
            rules,
            file,
            position,
            alignment,
            count,
            done,
        )->Ok_0.value;
        assert(longer[at] == all[at]);
        assert(done.is_prefix_of(all)) by {
            assert(longer.take(at) =~= done);
            assert(all.take(longer.len() as int).take(at) =~= all.take(at));
        }
        lemma_stand_both(file, position, tensor(all[at]), tensors(all, at + 1));
    }
}

/// The alignment that entries state, or thirty-two if they state none.
pub open spec fn states_alignment(items: Seq<Entry>, alignment: u32) -> bool {
    &&& forall|i: int|
        0 <= i < items.len() && (#[trigger] items[i]).key == alignment_key() ==> items[i].value
            == Value::Scalar(Scalar::U32(alignment))
    &&& (forall|i: int| 0 <= i < items.len() ==> (#[trigger] items[i]).key != alignment_key())
        ==> alignment == 32
}

proof fn lemma_alignment(rules: Rules, items: Seq<Entry>)
    requires
        entries_allowed(rules, items),
    ensures
        states_alignment(items, grammar::alignment_of(items)),
        forall|alignment: u32| #[trigger]
            states_alignment(items, alignment) ==> alignment == grammar::alignment_of(items),
    decreases items.len(),
{
    let stated = grammar::alignment_of(items);
    if items.len() > 0 {
        let rest = items.drop_last();
        let last = items.len() - 1;
        assert(entry_allowed(rules, items[last]));
        assert(entries_allowed(rules, rest)) by {
            assert forall|i: int| 0 <= i < rest.len() implies entry_allowed(
                rules,
                #[trigger] rest[i],
            ) by {
                assert(rest[i] == items[i]);
            }
            assert forall|i: int, j: int| 0 <= i < j < rest.len() implies (#[trigger] rest[i]).key
                != (#[trigger] rest[j]).key by {
                assert(rest[i] == items[i] && rest[j] == items[j]);
            }
        }
        lemma_alignment(rules, rest);
        if items[last].key == alignment_key() {
            assert forall|i: int| 0 <= i < items.len() && (#[trigger] items[i]).key
                == alignment_key() implies items[i].value == Value::Scalar(
                Scalar::U32(stated),
            ) by {
                if i < last {
                    assert(items[i].key != items[last].key);
                }
            }
        } else {
            assert forall|i: int| 0 <= i < items.len() && (#[trigger] items[i]).key
                == alignment_key() implies items[i].value == Value::Scalar(
                Scalar::U32(stated),
            ) by {
                assert(rest[i] == items[i]);
            }
            if forall|i: int| 0 <= i < items.len() ==> (#[trigger] items[i]).key
                != alignment_key() {
                assert forall|i: int| 0 <= i < rest.len() implies (#[trigger] rest[i]).key
                    != alignment_key() by {
                    assert(rest[i] == items[i]);
                }
            }
        }
    }
    assert forall|alignment: u32| #[trigger] states_alignment(items, alignment) implies alignment
        == stated by {
        if exists|i: int| 0 <= i < items.len() && (#[trigger] items[i]).key == alignment_key() {
            let i = choose|i: int|
                0 <= i < items.len() && (#[trigger] items[i]).key == alignment_key();
            assert(items[i].value == Value::Scalar(Scalar::U32(alignment)));
            assert(items[i].value == Value::Scalar(Scalar::U32(stated)));
        }
    }
}

/// Where the tensor data stands in a file of `length` bytes, behind a header that
/// ends at `end`, and how long it is.
pub open spec fn data_stands(
    length: nat,
    end: nat,
    table: Seq<Tensor>,
    alignment: u32,
    offset: nat,
    size: nat,
) -> bool {
    &&& if table.len() == 0 {
        offset == end && size == 0
    } else {
        &&& offset % alignment as nat == 0
        &&& end <= offset < end + alignment
        &&& padded(table, alignment, size)
    }
    &&& offset + size <= length
}

/// The rules for files that are read as a whole.
pub open spec fn rules_of(limits: Limits) -> Rules {
    Rules { limits, header_limit: None }
}

proof fn lemma_version(part: Seq<u8>)
    requires
        part.len() == 4,
    ensures
        part == number(2, 4) || part == number(3, 4) ==> grammar::version_fault(
            bytes::le_value(part),
            bytes::le_value(part.reverse()),
        ) is None,
{
    lemma_scales();
    lemma_value_of_bytes(2, 4);
    lemma_value_of_bytes(3, 4);
    reveal_with_fuel(bytes::le_value, 5);
    reveal_with_fuel(bytes::le_bytes, 5);
    if part == number(2, 4) {
        lemma_number_bytes(2, 4);
        assert(part =~= seq![2u8, 0u8, 0u8, 0u8]);
        assert(part.reverse() =~= seq![0u8, 0u8, 0u8, 2u8]);
        assert(part.reverse().drop_first() =~= seq![0u8, 0u8, 2u8]);
        assert(part.reverse().drop_first().drop_first() =~= seq![0u8, 2u8]);
        assert(part.reverse().drop_first().drop_first().drop_first() =~= seq![2u8]);
    }
    if part == number(3, 4) {
        lemma_number_bytes(3, 4);
        assert(part =~= seq![3u8, 0u8, 0u8, 0u8]);
        assert(part.reverse() =~= seq![0u8, 0u8, 0u8, 3u8]);
        assert(part.reverse().drop_first() =~= seq![0u8, 0u8, 3u8]);
        assert(part.reverse().drop_first().drop_first() =~= seq![0u8, 3u8]);
        assert(part.reverse().drop_first().drop_first().drop_first() =~= seq![3u8]);
    }
}

/// The parts of a header, each at its place.
proof fn lemma_header_parts(
    file: Seq<u8>,
    version: u32,
    metadata: Seq<Entry>,
    table: Seq<Tensor>,
)
    ensures
        stands(file, 0, header(version, metadata, table)) <==> {
            &&& stands(file, 0, seq![71u8, 71u8, 85u8, 70u8])
            &&& stands(file, 4, number(version as nat, 4))
            &&& stands(file, 8, number(table.len(), 8))
            &&& stands(file, 16, number(metadata.len(), 8))
            &&& stands(file, 24, entries(metadata, 0))
            &&& stands(file, 24 + entries(metadata, 0).len(), tensors(table, 0))
        },
        header(version, metadata, table).len() == 24 + entries(metadata, 0).len() + tensors(
            table,
            0,
        ).len(),
{
    let magic = seq![71u8, 71u8, 85u8, 70u8];
    let v = number(version as nat, 4);
    let t = number(table.len(), 8);
    let m = number(metadata.len(), 8);
    let e = entries(metadata, 0);
    let r = tensors(table, 0);
    lemma_stand_both(file, 0, magic, v + (t + (m + (e + r))));
    lemma_stand_both(file, 4, v, t + (m + (e + r)));
    lemma_stand_both(file, 8, t, m + (e + r));
    lemma_stand_both(file, 16, m, e + r);
    lemma_stand_both(file, 24, e, r);
}

/// What a file is made of: a header, and data where the header says.
pub struct Parts {
    pub version: u32,
    pub metadata: Seq<Entry>,
    pub table: Seq<Tensor>,
    pub alignment: u32,
    pub data_offset: nat,
    pub data_size: nat,
}

/// A file is made of `parts`, by the rules.
#[verifier::opaque]
pub open spec fn is_made_of(limits: Limits, file: Seq<u8>, parts: Parts) -> bool {
    let written = header(parts.version, parts.metadata, parts.table);
    &&& parts.version == 2 || parts.version == 3
    &&& entries_allowed(rules_of(limits), parts.metadata)
    &&& states_alignment(parts.metadata, parts.alignment)
    &&& power2::is_pow2(parts.alignment as int)
    &&& tensors_allowed(rules_of(limits), parts.alignment, parts.table)
    &&& stands(file, 0, written)
    &&& data_stands(
        file.len(),
        written.len(),
        parts.table,
        parts.alignment,
        parts.data_offset,
        parts.data_size,
    )
}

/// What was read is what a file is made of.
pub open spec fn holds_parts(document: Document, parts: Parts) -> bool {
    &&& document.version == parts.version
    &&& document.alignment == parts.alignment
    &&& document.header_size == header(parts.version, parts.metadata, parts.table).len()
    &&& document.data_offset == parts.data_offset
    &&& document.data_size == parts.data_size
    &&& document.metadata == parts.metadata
    &&& document.tensors == parts.table
}

/// The parts of a file that was read.
pub open spec fn parts_of(document: Document) -> Parts {
    Parts {
        version: document.version,
        metadata: document.metadata,
        table: document.tensors,
        alignment: document.alignment,
        data_offset: document.data_offset,
        data_size: document.data_size,
    }
}

/// A file that is made by the rules is read, and holds what was written.
#[verifier::rlimit(40)]
pub(crate) proof fn lemma_file_written(limits: Limits, file: Seq<u8>, parts: Parts)
    requires
        file.len() <= usize::MAX,
        is_made_of(limits, file, parts),
        header(parts.version, parts.metadata, parts.table).len() + parts.alignment <= usize::MAX,
    ensures
        grammar::document(rules_of(limits), file) matches Ok(document) && holds_parts(
            document,
            parts,
        ),
{
    reveal(grammar::bytes_at);
    reveal(grammar::count_at);
    reveal(grammar::document_version_at);
    reveal(grammar::document_tensors_at);
    reveal(grammar::document_entries_at);
    reveal(grammar::document_with_entries);
    reveal(grammar::document_with_tensors);
    reveal(is_made_of);
    let rules = rules_of(limits);
    let Parts { version, metadata, table, alignment, data_offset: offset, data_size: size } = parts;
    lemma_scales();
    lemma_header_parts(file, version, metadata, table);
    let magic = seq![71u8, 71u8, 85u8, 70u8];
    lemma_stands(file, 0, magic);
    assert(magic.len() == 4);
    let v = number(version as nat, 4);
    lemma_stands(file, 4, v);
    lemma_version(v);
    lemma_value_of_bytes(version as nat, 4);
    lemma_number(rules, file, 8, 8, table.len());
    lemma_number(rules, file, 16, 8, metadata.len());
    lemma_alignment(rules, metadata);
    assert(metadata.take(0) =~= seq![]);
    lemma_entries_written(rules, file, 24, metadata, 0);
    let end = 24 + entries(metadata, 0).len();
    reveal(power2::is_pow2);
    assert(alignment > 0);
    let none = table.take(0);
    assert(none =~= seq![]);
    div_mod::lemma_small_mod(0, alignment as nat);
    lemma_tensors_written(rules, file, end, alignment, table, 0);
    let header_end = header(version, metadata, table).len();
    assert(metadata.len() * 12 == 12 * metadata.len());
    assert(table.len() * 24 == 24 * table.len());
    if table.len() > 0 {
        laws::lemma_align_up_bounds(header_end, alignment as nat);
        let aligned = grammar::align_up(header_end, alignment as nat);
        laws::lemma_multiples_apart(offset as int, aligned as int, alignment as int);
        laws::lemma_multiples_apart(aligned as int, offset as int, alignment as int);
        let data = grammar::data_size_of(table, alignment);
        laws::lemma_multiples_apart(size as int, data as int, alignment as int);
        laws::lemma_multiples_apart(data as int, size as int, alignment as int);
    }
}

/// A file that is read was made by the rules.
#[verifier::rlimit(40)]
proof fn lemma_file_read(limits: Limits, file: Seq<u8>)
    requires
        file.len() <= usize::MAX,
        grammar::document(rules_of(limits), file) is Ok,
    ensures
        ({
            let document = grammar::document(rules_of(limits), file)->Ok_0;
            &&& is_made_of(limits, file, parts_of(document))
            &&& holds_parts(document, parts_of(document))
        }),
{
    reveal(grammar::bytes_at);
    reveal(grammar::count_at);
    reveal(grammar::document_version_at);
    reveal(grammar::document_tensors_at);
    reveal(grammar::document_entries_at);
    reveal(grammar::document_with_entries);
    reveal(grammar::document_with_tensors);
    reveal(is_made_of);
    let rules = rules_of(limits);
    let document = grammar::document(rules, file)->Ok_0;
    lemma_scales();
    let magic = seq![71u8, 71u8, 85u8, 70u8];
    assert(magic.len() == 4);
    lemma_stands(file, 0, magic);
    let v = file.subrange(4, 8);
    lemma_bytes_of_value(v);
    lemma_stands(file, 4, v);
    lemma_number(rules, file, 8, 8, 0);
    lemma_number(rules, file, 16, 8, 0);
    let table_count = grammar::number_at(rules, file, 8, 8)->Ok_0.value;
    let entry_count = grammar::number_at(rules, file, 16, 8)->Ok_0.value;
    lemma_entries_read(rules, file, 24, entry_count, seq![]);
    let metadata = document.metadata;
    lemma_alignment(rules, metadata);
    let alignment = document.alignment;
    reveal(power2::is_pow2);
    assert(alignment > 0);
    div_mod::lemma_small_mod(0, alignment as nat);
    let end = 24 + entries(metadata, 0).len();
    lemma_tensors_read(rules, file, end, alignment, table_count, seq![]);
    let table = document.tensors;
    lemma_header_parts(file, document.version, metadata, table);
    if table.len() > 0 {
        laws::lemma_align_up_bounds(document.header_size, alignment as nat);
    }
}

/// A call that reads a file, with limits that were given or with the usual ones.
pub open spec fn opened(
    source: &[u8],
    limits: Limits,
    result: Result<Gguf<'_>, Error>,
) -> bool {
    ||| call_ensures(Gguf::from_bytes_with_limits, (source, limits), result)
    ||| {
        &&& call_ensures(Gguf::from_bytes, (source,), result)
        &&& limits.max_string_bytes == 1024 * 1024 * 1024
        &&& limits.max_array_elements == 16 * 1024 * 1024
        &&& limits.max_metadata_entries == 1024 * 1024
        &&& limits.max_tensors == 1024 * 1024
    }
}

/// A file that is made by the rules is read, and what is read is what it was made
/// of.
pub proof fn law_written_files_are_read_back(
    source: &[u8],
    limits: Limits,
    result: Result<Gguf<'_>, Error>,
    parts: Parts,
)
    requires
        opened(source, limits, result),
        source@.len() <= usize::MAX,
        is_made_of(limits, source@, parts),
        header(parts.version, parts.metadata, parts.table).len() + parts.alignment <= usize::MAX,
    ensures
        result matches Ok(file) && holds_parts(file@, parts),
{
    lemma_file_written(limits, source@, parts);
}

/// A file that is read was made by the rules, of what was read.
pub proof fn law_files_that_are_read_were_written(
    source: &[u8],
    limits: Limits,
    result: Result<Gguf<'_>, Error>,
)
    requires
        opened(source, limits, result),
        source@.len() <= usize::MAX,
        result is Ok,
    ensures
        is_made_of(limits, source@, parts_of(result->Ok_0@)),
        holds_parts(result->Ok_0@, parts_of(result->Ok_0@)),
{
    lemma_file_read(limits, source@);
}

/// The bytes of a tensor stand in its file where the data of all tensors starts,
/// as far behind as the offset says. There is nothing for a number without a
/// tensor.
pub proof fn law_tensor_data_stands_at_its_offset(
    source: &[u8],
    limits: Limits,
    result: Result<Gguf<'_>, Error>,
    parts: Parts,
    at: usize,
    data: Option<&[u8]>,
)
    requires
        opened(source, limits, result),
        source@.len() <= usize::MAX,
        is_made_of(limits, source@, parts),
        header(parts.version, parts.metadata, parts.table).len() + parts.alignment <= usize::MAX,
        result matches Ok(file) && call_ensures(Gguf::tensor_data, (&file, at), data),
    ensures
        data is Some <==> at < parts.table.len(),
        data is Some ==> {
            let row = parts.table[at as int];
            &&& data->0@.len() == row.byte_len
            &&& stands(source@, parts.data_offset + row.offset, data->0@)
        },
{
    lemma_file_written(limits, source@, parts);
    if at < parts.table.len() {
        let row = parts.table[at as int];
        reveal(is_made_of);
        lemma_data_inside(parts.table, parts.alignment, parts.data_size, at as int, limits);
        if let Some(part) = data {
            lemma_stands(source@, parts.data_offset + row.offset, part@);
        }
    }
}

proof fn lemma_data_inside(
    table: Seq<Tensor>,
    alignment: u32,
    size: nat,
    at: int,
    limits: Limits,
)
    requires
        tensors_allowed(rules_of(limits), alignment, table),
        padded(table, alignment, size),
        0 <= at < table.len(),
    ensures
        table[at].offset + table[at].byte_len <= size,
    decreases table.len() - at,
{
    if at + 1 < table.len() {
        lemma_data_inside(table, alignment, size, at + 1, limits);
        assert(follows(end_before(table, at + 1), alignment, table[at + 1]));
    }
}

/// A file that is read piece by piece is accepted if it is made by the rules and
/// its header keeps within the limit. What is found of it is what it is made of,
/// and the reader is left at the tensor data.
pub proof fn law_headers_tell_what_files_are_made_of(
    reader: &mut SliceReader<'_>,
    limits: HeaderLimits,
    result: Result<GgufHeader, ReadError>,
    parts: Parts,
)
    requires
        old(reader).bytes@.len() <= usize::MAX,
        is_made_of(limits.format, old(reader).bytes@, parts),
        header(parts.version, parts.metadata, parts.table).len() + parts.alignment <= usize::MAX,
        call_ensures(GgufHeader::from_reader_with_limits, (reader, limits), result),
    ensures
        result is Ok <==> header(parts.version, parts.metadata, parts.table).len()
            <= limits.max_header_bytes,
        result matches Ok(found) ==> {
            &&& found@.version == parts.version
            &&& found@.alignment == parts.alignment
            &&& found@.header_size == header(parts.version, parts.metadata, parts.table).len()
            &&& found@.data_offset == parts.data_offset
            &&& found@.data_size == parts.data_size
            &&& found@.file_size == old(reader).bytes@.len()
            &&& found@.metadata_count == parts.metadata.len()
            &&& found@.tensor_count == parts.table.len()
            &&& final(reader).position == parts.data_offset
        },
{
    let file = old(reader).bytes@;
    lemma_file_written(limits.format, file, parts);
    laws::law_reader_agrees(limits.format, limits.max_header_bytes, file);
}

/// The range of the tensor data of a file starts where the data does and is as long
/// as it.
pub proof fn law_data_ranges_cover_the_tensor_data(
    found: GgufHeader,
    range: core::ops::Range<u64>,
    file: &Gguf<'_>,
    data: &[u8],
)
    ensures
        call_ensures(GgufHeader::tensor_data_range, (found,), range) ==> range.start
            == found@.data_offset && range.end - range.start == found@.data_size,
        call_ensures(Gguf::data, (file,), data) && file@.data_offset + file@.data_size
            <= file.spec_source().len() ==> data@.len() == file@.data_size && stands(
            file.spec_source(),
            file@.data_offset,
            data@,
        ),
{
    if call_ensures(Gguf::data, (file,), data) && file@.data_offset + file@.data_size
        <= file.spec_source().len() {
        lemma_stands(file.spec_source(), file@.data_offset, data@);
    }
}

/// The limits of other implementations allow longer arrays and any number of
/// entries and of tensors, and texts of the same length as the usual limits.
pub proof fn law_upstream_limits_are_wider(usual: Limits, upstream: Limits)
    requires
        call_ensures(Limits::default, (), usual),
        call_ensures(Limits::upstream_compatible, (), upstream),
    ensures
        upstream.max_string_bytes == usual.max_string_bytes,
        upstream.max_array_elements == 64 * usual.max_array_elements,
        upstream.max_metadata_entries == u64::MAX,
        upstream.max_tensors == u64::MAX,
        usual.max_metadata_entries == 1024 * 1024,
        usual.max_tensors == 1024 * 1024,
        usual.max_array_elements == 16 * 1024 * 1024,
        usual.max_string_bytes == 1024 * 1024 * 1024,
{
}

} // verus!
