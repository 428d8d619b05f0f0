//! What holds of every file.

use vstd::prelude::*;
use vstd::utf8;
use vstd::arithmetic::div_mod;
use vstd::arithmetic::power;
use vstd::arithmetic::power2;

use crate::bytes;
use crate::gguf::error::{Failure, Fault};
use crate::gguf::grammar;
use crate::gguf::grammar::{Counts, Document, Reading, Rules};
use crate::gguf::header;
use crate::gguf::limits::Limits;
use crate::gguf::types;
use crate::gguf::types::{Entry, MetadataType, Tensor, Value};

verus! {

/// The bytes of `file` before `end` may be read, and are those of `model`.
pub open spec fn within(rules: Rules, model: Seq<u8>, file: Seq<u8>, end: nat) -> bool {
    &&& end <= model.len()
    &&& end <= file.len()
    &&& end <= usize::MAX
    &&& rules.header_limit matches Some(limit) ==> end <= limit
    &&& forall|i: int| 0 <= i < end ==> #[trigger] file[i] == model[i]
}

/// A reading ended at `end`.
pub open spec fn reached(rules: Rules, file: Seq<u8>, end: nat) -> bool {
    &&& end <= file.len()
    &&& rules.header_limit matches Some(limit) ==> end <= limit && end <= usize::MAX
}

/// Both rules keep the items of arrays of fixed width, or neither does.
pub open spec fn keep_alike(a: Rules, b: Rules) -> bool {
    a.header_limit is None <==> b.header_limit is None
}

/// The values that two readings of the same bytes yield.
pub open spec fn alike(r1: Rules, r2: Rules, a: Value, b: Value) -> bool {
    ||| a == b
    ||| {
        &&& !keep_alike(r1, r2)
        &&& a matches Value::Array { element_type: left, .. } && b matches Value::Array {
            element_type: right,
            ..
        } && left == right
    }
}

/// Entries have the same keys, and values that are alike.
pub open spec fn entries_alike(r1: Rules, r2: Rules, a: Seq<Entry>, b: Seq<Entry>) -> bool {
    &&& a.len() == b.len()
    &&& forall|i: int|
        #![trigger a[i]]
        #![trigger b[i]]
        0 <= i < a.len() ==> a[i].key == b[i].key && alike(r1, r2, a[i].value, b[i].value)
}

/// Each of the limits `b` is at least the same limit of `a`.
pub open spec fn no_narrower(a: Limits, b: Limits) -> bool {
    &&& a.max_string_bytes <= b.max_string_bytes
    &&& a.max_array_elements <= b.max_array_elements
    &&& a.max_metadata_entries <= b.max_metadata_entries
    &&& a.max_tensors <= b.max_tensors
}

proof fn lemma_bytes(r1: Rules, f1: Seq<u8>, r2: Rules, f2: Seq<u8>, position: nat, length: nat)
    requires
        grammar::bytes_at(r1, f1, position, length) is Ok,
    ensures
        reached(r1, f1, grammar::bytes_at(r1, f1, position, length)->Ok_0.end),
        grammar::bytes_at(r1, f1, position, length)->Ok_0.end == position + length,
        grammar::bytes_at(r1, f1, position, length)->Ok_0.value.len() == length,
        within(r2, f1, f2, position + length) ==> grammar::bytes_at(r2, f2, position, length)
            == grammar::bytes_at(r1, f1, position, length),
{
    reveal(grammar::bytes_at);
    if within(r2, f1, f2, position + length) {
        assert(f1.subrange(position as int, (position + length) as int) =~= f2.subrange(
            position as int,
            (position + length) as int,
        ));
    }
}

proof fn lemma_number(r1: Rules, f1: Seq<u8>, r2: Rules, f2: Seq<u8>, position: nat, width: nat)
    requires
        grammar::number_at(r1, f1, position, width) is Ok,
    ensures
        reached(r1, f1, grammar::number_at(r1, f1, position, width)->Ok_0.end),
        grammar::number_at(r1, f1, position, width)->Ok_0.end == position + width,
        within(r2, f1, f2, position + width) ==> grammar::number_at(r2, f2, position, width)
            == grammar::number_at(r1, f1, position, width),
{
    reveal(grammar::number_at);
    lemma_bytes(r1, f1, r2, f2, position, width);
}

proof fn lemma_count(
    r1: Rules,
    f1: Seq<u8>,
    r2: Rules,
    f2: Seq<u8>,
    position: nat,
    field: Seq<char>,
    limit: nat,
    other: nat,
)
    requires
        limit <= other,
        grammar::count_at(r1, f1, position, field, limit) is Ok,
    ensures
        reached(r1, f1, grammar::count_at(r1, f1, position, field, limit)->Ok_0.end),
        grammar::count_at(r1, f1, position, field, limit)->Ok_0.end == position + 8,
        grammar::count_at(r1, f1, position, field, limit)->Ok_0.value <= limit,
        within(r2, f1, f2, position + 8) ==> grammar::count_at(r2, f2, position, field, other)
            == grammar::count_at(r1, f1, position, field, limit),
{
    reveal(grammar::count_at);
    lemma_number(r1, f1, r2, f2, position, 8);
}

proof fn lemma_characters(
    r1: Rules,
    f1: Seq<u8>,
    r2: Rules,
    f2: Seq<u8>,
    position: nat,
    length: nat,
    field: Seq<char>,
)
    requires
        grammar::characters_at(r1, f1, position, length, field) is Ok,
    ensures
        reached(r1, f1, grammar::characters_at(r1, f1, position, length, field)->Ok_0.end),
        grammar::characters_at(r1, f1, position, length, field)->Ok_0.end == position + length,
        within(r2, f1, f2, position + length) ==> grammar::characters_at(
            r2,
            f2,
            position,
            length,
            field,
        ) == grammar::characters_at(r1, f1, position, length, field),
{
    reveal(grammar::characters_at);
    lemma_bytes(r1, f1, r2, f2, position, length);
}

proof fn lemma_text(
    r1: Rules,
    f1: Seq<u8>,
    r2: Rules,
    f2: Seq<u8>,
    position: nat,
    field: Seq<char>,
)
    requires
        no_narrower(r1.limits, r2.limits),
        grammar::text_at(r1, f1, position, field) is Ok,
    ensures
        reached(r1, f1, grammar::text_at(r1, f1, position, field)->Ok_0.end),
        grammar::text_at(r1, f1, position, field)->Ok_0.end >= position + 8,
        within(r2, f1, f2, grammar::text_at(r1, f1, position, field)->Ok_0.end) ==> grammar::text_at(
            r2,
            f2,
            position,
            field,
        ) == grammar::text_at(r1, f1, position, field),
{
    reveal(grammar::text_at);
    let limit = r1.limits.max_string_bytes as nat;
    let other = r2.limits.max_string_bytes as nat;
    lemma_count(r1, f1, r2, f2, position, field, limit, other);
    let count = grammar::count_at(r1, f1, position, field, limit)->Ok_0;
    lemma_characters(r1, f1, r2, f2, count.end, count.value, field);
}

proof fn lemma_texts(
    r1: Rules,
    f1: Seq<u8>,
    r2: Rules,
    f2: Seq<u8>,
    position: nat,
    count: nat,
    done: Seq<Seq<char>>,
)
    requires
        no_narrower(r1.limits, r2.limits),
        done.len() <= count,
        grammar::texts_from(r1, f1, position, count, done) is Ok,
    ensures
        reached(r1, f1, position) ==> reached(r1, f1, grammar::texts_from(r1, f1, position, count, done)->Ok_0.end),
        grammar::texts_from(r1, f1, position, count, done)->Ok_0.end >= position + 8 * (count
            - done.len()),
        within(r2, f1, f2, grammar::texts_from(r1, f1, position, count, done)->Ok_0.end)
            ==> grammar::texts_from(r2, f2, position, count, done) == grammar::texts_from(
            r1,
            f1,
            position,
            count,
            done,
        ),
    decreases count - done.len(),
{
    if done.len() < count {
        let field = "metadata array string"@;
        lemma_text(r1, f1, r2, f2, position, field);
        let text = grammar::text_at(r1, f1, position, field)->Ok_0;
        lemma_texts(r1, f1, r2, f2, text.end, count, done.push(text.value));
    }
}

proof fn lemma_scalar(
    r1: Rules,
    f1: Seq<u8>,
    r2: Rules,
    f2: Seq<u8>,
    position: nat,
    value_type: MetadataType,
)
    requires
        no_narrower(r1.limits, r2.limits),
        grammar::scalar_at(r1, f1, position, value_type) is Ok,
    ensures
        reached(r1, f1, grammar::scalar_at(r1, f1, position, value_type)->Ok_0.end),
        grammar::scalar_at(r1, f1, position, value_type)->Ok_0.end >= position,
        within(r2, f1, f2, grammar::scalar_at(r1, f1, position, value_type)->Ok_0.end)
            ==> grammar::scalar_at(r2, f2, position, value_type) == grammar::scalar_at(
            r1,
            f1,
            position,
            value_type,
        ),
{
    reveal(grammar::scalar_at);
    match types::fixed_width_of(value_type) {
        None => {
            lemma_text(r1, f1, r2, f2, position, "metadata string"@);
        },
        Some(width) => {
            lemma_bytes(r1, f1, r2, f2, position, width);
        },
    }
}

/// Two readings of a value end at the same place with values that are alike.
pub open spec fn readings_alike(
    r1: Rules,
    r2: Rules,
    a: Reading<Value>,
    b: Reading<Value>,
) -> bool {
    a matches Ok(a) && b matches Ok(b) && a.end == b.end && alike(r1, r2, a.value, b.value)
}

proof fn lemma_items(
    r1: Rules,
    f1: Seq<u8>,
    r2: Rules,
    f2: Seq<u8>,
    position: nat,
    element_type: MetadataType,
    count: nat,
)
    requires
        no_narrower(r1.limits, r2.limits),
        grammar::items_at(r1, f1, position, element_type, count) is Ok,
    ensures
        reached(r1, f1, position) ==> reached(r1, f1, grammar::items_at(r1, f1, position, element_type, count)->Ok_0.end),
        grammar::items_at(r1, f1, position, element_type, count)->Ok_0.end >= position,
        within(r2, f1, f2, grammar::items_at(r1, f1, position, element_type, count)->Ok_0.end)
            ==> readings_alike(
            r1,
            r2,
            grammar::items_at(r1, f1, position, element_type, count),
            grammar::items_at(r2, f2, position, element_type, count),
        ),
{
    reveal(grammar::items_at);
    reveal(grammar::fixed_array_at);
    if element_type == MetadataType::String {
        lemma_texts(r1, f1, r2, f2, position, count, seq![]);
        assert(count * 8 == 8 * count);
    } else {
        let length = count * types::fixed_width_of(element_type)->0;
        lemma_bytes(r1, f1, r2, f2, position, length);
    }
}

proof fn lemma_value(r1: Rules, f1: Seq<u8>, r2: Rules, f2: Seq<u8>, position: nat)
    requires
        no_narrower(r1.limits, r2.limits),
        grammar::value_at(r1, f1, position) is Ok,
    ensures
        reached(r1, f1, grammar::value_at(r1, f1, position)->Ok_0.end),
        grammar::value_at(r1, f1, position)->Ok_0.end >= position + 4,
        within(r2, f1, f2, grammar::value_at(r1, f1, position)->Ok_0.end) ==> readings_alike(
            r1,
            r2,
            grammar::value_at(r1, f1, position),
            grammar::value_at(r2, f2, position),
        ),
{
    reveal(grammar::value_at);
    lemma_number(r1, f1, r2, f2, position, 4);
    let code = grammar::number_at(r1, f1, position, 4)->Ok_0;
    match types::metadata_type_of(code.value as u32) {
        None => {},
        Some(MetadataType::Array) => {
            reveal(grammar::array_at);
            reveal(grammar::array_length_at);
            lemma_number(r1, f1, r2, f2, code.end, 4);
            let item = grammar::number_at(r1, f1, code.end, 4)->Ok_0;
            let element_type = types::metadata_type_of(item.value as u32)->0;
            let field = "metadata array length"@;
            let limit = r1.limits.max_array_elements as nat;
            let other = r2.limits.max_array_elements as nat;
            lemma_count(r1, f1, r2, f2, item.end, field, limit, other);
            let count = grammar::count_at(r1, f1, item.end, field, limit)->Ok_0;
            lemma_items(r1, f1, r2, f2, count.end, element_type, count.value);
        },
        Some(value_type) => {
            lemma_scalar(r1, f1, r2, f2, code.end, value_type);
        },
    }
}

proof fn lemma_alike_keys(r1: Rules, r2: Rules, a: Seq<Entry>, b: Seq<Entry>, key: Seq<char>)
    requires
        entries_alike(r1, r2, a, b),
    ensures
        grammar::key_fault(a, key) == grammar::key_fault(b, key),
{
    reveal(grammar::key_fault);
    if grammar::has_key(a, key) {
        let i = choose|i: int| 0 <= i < a.len() && #[trigger] a[i].key == key;
        assert(b[i].key == key);
    }
    if grammar::has_key(b, key) {
        let i = choose|i: int| 0 <= i < b.len() && #[trigger] b[i].key == key;
        assert(a[i].key == key);
    }
}

proof fn lemma_alike_alignment(r1: Rules, r2: Rules, a: Seq<Entry>, b: Seq<Entry>)
    requires
        entries_alike(r1, r2, a, b),
    ensures
        grammar::alignment_of(a) == grammar::alignment_of(b),
    decreases a.len(),
{
    if a.len() > 0 {
        assert(a.last() == a[a.len() - 1]);
        assert(b.last() == b[a.len() - 1]);
        assert forall|i: int| 0 <= i < a.len() - 1 implies #[trigger] a.drop_last()[i].key
            == b.drop_last()[i].key && alike(
            r1,
            r2,
            a.drop_last()[i].value,
            b.drop_last()[i].value,
        ) by {
            assert(a.drop_last()[i] == a[i]);
        }
        lemma_alike_alignment(r1, r2, a.drop_last(), b.drop_last());
    }
}

proof fn lemma_entry(
    r1: Rules,
    f1: Seq<u8>,
    r2: Rules,
    f2: Seq<u8>,
    position: nat,
    d1: Seq<Entry>,
    d2: Seq<Entry>,
)
    requires
        no_narrower(r1.limits, r2.limits),
        entries_alike(r1, r2, d1, d2),
        grammar::entry_at(r1, f1, position, d1) is Ok,
    ensures
        reached(r1, f1, grammar::entry_at(r1, f1, position, d1)->Ok_0.end),
        grammar::entry_at(r1, f1, position, d1)->Ok_0.end >= position + 12,
        within(r2, f1, f2, grammar::entry_at(r1, f1, position, d1)->Ok_0.end) ==> {
            let a = grammar::entry_at(r1, f1, position, d1)->Ok_0;
            grammar::entry_at(r2, f2, position, d2) matches Ok(b) && a.end == b.end && a.value.key
                == b.value.key && alike(r1, r2, a.value.value, b.value.value)
        },
{
    reveal(grammar::entry_with_key);
    reveal(grammar::entry_with_value);
    let field = "metadata key"@;
    lemma_text(r1, f1, r2, f2, position, field);
    let key = grammar::text_at(r1, f1, position, field)->Ok_0;
    lemma_alike_keys(r1, r2, d1, d2, key.value);
    lemma_value(r1, f1, r2, f2, key.end);
}

proof fn lemma_entries(
    r1: Rules,
    f1: Seq<u8>,
    r2: Rules,
    f2: Seq<u8>,
    position: nat,
    count: nat,
    d1: Seq<Entry>,
    d2: Seq<Entry>,
)
    requires
        no_narrower(r1.limits, r2.limits),
        entries_alike(r1, r2, d1, d2),
        d1.len() <= count,
        grammar::entries_from(r1, f1, position, count, d1) is Ok,
    ensures
        reached(r1, f1, position) ==> reached(r1, f1, grammar::entries_from(r1, f1, position, count, d1)->Ok_0.end),
        grammar::entries_from(r1, f1, position, count, d1)->Ok_0.end >= position + 12 * (count
            - d1.len()),
        grammar::entries_from(r1, f1, position, count, d1)->Ok_0.value.len() == count,
        within(r2, f1, f2, grammar::entries_from(r1, f1, position, count, d1)->Ok_0.end) ==> {
            let a = grammar::entries_from(r1, f1, position, count, d1)->Ok_0;
            grammar::entries_from(r2, f2, position, count, d2) matches Ok(b) && a.end == b.end
                && entries_alike(r1, r2, a.value, b.value)
        },
    decreases count - d1.len(),
{
    if d1.len() < count {
        lemma_entry(r1, f1, r2, f2, position, d1, d2);
        let a = grammar::entry_at(r1, f1, position, d1)->Ok_0;
        let b = grammar::entry_at(r2, f2, position, d2)->Ok_0;
        let other = if within(r2, f1, f2, a.end) {
            b.value
        } else {
            a.value
        };
        lemma_entries(r1, f1, r2, f2, a.end, count, d1.push(a.value), d2.push(other));
    }
}

proof fn lemma_shape(
    r1: Rules,
    f1: Seq<u8>,
    r2: Rules,
    f2: Seq<u8>,
    position: nat,
    count: nat,
    done: Seq<u64>,
)
    requires
        done.len() <= count,
        grammar::shape_from(r1, f1, position, count, done) is Ok,
    ensures
        reached(r1, f1, position) ==> reached(r1, f1, grammar::shape_from(r1, f1, position, count, done)->Ok_0.end),
        grammar::shape_from(r1, f1, position, count, done)->Ok_0.end >= position,
        within(r2, f1, f2, grammar::shape_from(r1, f1, position, count, done)->Ok_0.end)
            ==> grammar::shape_from(r2, f2, position, count, done) == grammar::shape_from(
            r1,
            f1,
            position,
            count,
            done,
        ),
    decreases count - done.len(),
{
    if done.len() < count {
        lemma_number(r1, f1, r2, f2, position, 8);
        let number = grammar::number_at(r1, f1, position, 8)->Ok_0;
        lemma_shape(r1, f1, r2, f2, number.end, count, done.push(number.value as u64));
    }
}

proof fn lemma_tensor(
    r1: Rules,
    f1: Seq<u8>,
    r2: Rules,
    f2: Seq<u8>,
    position: nat,
    alignment: u32,
    done: Seq<Tensor>,
)
    requires
        no_narrower(r1.limits, r2.limits),
        grammar::tensor_at(r1, f1, position, alignment, done) is Ok,
    ensures
        reached(r1, f1, grammar::tensor_at(r1, f1, position, alignment, done)->Ok_0.end),
        grammar::tensor_at(r1, f1, position, alignment, done)->Ok_0.end >= position + 24,
        within(r2, f1, f2, grammar::tensor_at(r1, f1, position, alignment, done)->Ok_0.end)
            ==> grammar::tensor_at(r2, f2, position, alignment, done) == grammar::tensor_at(
            r1,
            f1,
            position,
            alignment,
            done,
        ),
{
    reveal(grammar::tensor_with_name);
    reveal(grammar::tensor_shape_at);
    reveal(grammar::tensor_with_shape);
    reveal(grammar::tensor_with_type);
    let field = "tensor name"@;
    lemma_text(r1, f1, r2, f2, position, field);
    let name = grammar::text_at(r1, f1, position, field)->Ok_0;
    lemma_number(r1, f1, r2, f2, name.end, 4);
    let count = grammar::number_at(r1, f1, name.end, 4)->Ok_0;
    lemma_shape(r1, f1, r2, f2, count.end, count.value, seq![]);
    let shape = grammar::shape_from(r1, f1, count.end, count.value, seq![])->Ok_0;
    lemma_number(r1, f1, r2, f2, shape.end, 4);
    let code = grammar::number_at(r1, f1, shape.end, 4)->Ok_0;
    lemma_number(r1, f1, r2, f2, code.end, 8);
}

proof fn lemma_tensors(
    r1: Rules,
    f1: Seq<u8>,
    r2: Rules,
    f2: Seq<u8>,
    position: nat,
    alignment: u32,
    count: nat,
    done: Seq<Tensor>,
)
    requires
        no_narrower(r1.limits, r2.limits),
        done.len() <= count,
        grammar::tensors_from(r1, f1, position, alignment, count, done) is Ok,
    ensures
        reached(r1, f1, position) ==> reached(r1, f1, grammar::tensors_from(r1, f1, position, alignment, count, done)->Ok_0.end),
        grammar::tensors_from(r1, f1, position, alignment, count, done)->Ok_0.end >= position + 24
            * (count - done.len()),
        grammar::tensors_from(r1, f1, position, alignment, count, done)->Ok_0.value.len() == count,
        within(r2, f1, f2, grammar::tensors_from(r1, f1, position, alignment, count, done)->Ok_0.end)
            ==> grammar::tensors_from(r2, f2, position, alignment, count, done)
            == grammar::tensors_from(r1, f1, position, alignment, count, done),
    decreases count - done.len(),
{
    if done.len() < count {
        lemma_tensor(r1, f1, r2, f2, position, alignment, done);
        let tensor = grammar::tensor_at(r1, f1, position, alignment, done)->Ok_0;
        lemma_tensors(r1, f1, r2, f2, tensor.end, alignment, count, done.push(tensor.value));
    }
}

/// Two documents differ at most in the items that only one reading keeps.
pub open spec fn documents_alike(r1: Rules, r2: Rules, a: Document, b: Document) -> bool {
    &&& a.version == b.version
    &&& a.alignment == b.alignment
    &&& a.header_size == b.header_size
    &&& a.data_offset == b.data_offset
    &&& a.data_size == b.data_size
    &&& a.tensors == b.tensors
    &&& entries_alike(r1, r2, a.metadata, b.metadata)
}

/// The tables of a valid file mean the same wherever they may be read.
proof fn lemma_document(r1: Rules, f1: Seq<u8>, r2: Rules, f2: Seq<u8>)
    requires
        no_narrower(r1.limits, r2.limits),
        grammar::document(r1, f1) is Ok,
        within(r2, f1, f2, grammar::document(r1, f1)->Ok_0.header_size),
    ensures
        ({
            let a = grammar::document(r1, f1)->Ok_0;
            match grammar::document(r2, f2) {
                Ok(b) => a.data_offset + a.data_size <= f2.len() && documents_alike(r1, r2, a, b),
                Err(_) => a.data_offset + a.data_size > f2.len(),
            }
        }),
{
    reveal(grammar::document_version_at);
    reveal(grammar::document_tensors_at);
    reveal(grammar::document_entries_at);
    lemma_bytes(r1, f1, r2, f2, 0, 4);
    lemma_bytes(r1, f1, r2, f2, 4, 4);
    let version = bytes::le_value(grammar::bytes_at(r1, f1, 4, 4)->Ok_0.value) as u32;
    let tensor_limit = r1.limits.max_tensors as nat;
    let entry_limit = r1.limits.max_metadata_entries as nat;
    let tensor_other = r2.limits.max_tensors as nat;
    let entry_other = r2.limits.max_metadata_entries as nat;
    lemma_count(r1, f1, r2, f2, 8, "tensor count"@, tensor_limit, tensor_other);
    lemma_count(r1, f1, r2, f2, 16, "metadata count"@, entry_limit, entry_other);
    let tensor_count = grammar::count_at(r1, f1, 8, "tensor count"@, tensor_limit)->Ok_0;
    let entry_count = grammar::count_at(r1, f1, 16, "metadata count"@, entry_limit)->Ok_0;
    let counts = Counts { version, tensors: tensor_count.value, entries: entry_count.value };
    lemma_tables(r1, f1, r2, f2, counts);
}

/// The part of `lemma_document` behind the counts.
proof fn lemma_tables(r1: Rules, f1: Seq<u8>, r2: Rules, f2: Seq<u8>, counts: Counts)
    requires
        no_narrower(r1.limits, r2.limits),
        grammar::document_with_entries(
            r1,
            f1,
            counts,
            grammar::entries_from(r1, f1, 24, counts.entries, seq![]),
        ) is Ok,
        grammar::table_fault(
            r1,
            f1.len(),
            24,
            counts.entries,
            grammar::MIN_METADATA_ENTRY_BYTES as nat,
            "metadata table"@,
        ) is None,
    ensures
        ({
            let a = grammar::document_with_entries(
                r1,
                f1,
                counts,
                grammar::entries_from(r1, f1, 24, counts.entries, seq![]),
            )->Ok_0;
            &&& a.header_size >= 24
            &&& within(r2, f1, f2, a.header_size) ==> grammar::table_fault(
                r2,
                f2.len(),
                24,
                counts.entries,
                grammar::MIN_METADATA_ENTRY_BYTES as nat,
                "metadata table"@,
            ) is None
            &&& within(r2, f1, f2, a.header_size) ==> match grammar::document_with_entries(
                r2,
                f2,
                counts,
                grammar::entries_from(r2, f2, 24, counts.entries, seq![]),
            ) {
                Ok(b) => a.data_offset + a.data_size <= f2.len() && documents_alike(r1, r2, a, b),
                Err(_) => a.data_offset + a.data_size > f2.len(),
            }
        }),
{
    reveal(grammar::document_with_entries);
    reveal(grammar::document_with_tensors);
    lemma_entries(r1, f1, r2, f2, 24, counts.entries, seq![], seq![]);
    let a = grammar::entries_from(r1, f1, 24, counts.entries, seq![])->Ok_0;
    let b = grammar::entries_from(r2, f2, 24, counts.entries, seq![])->Ok_0;
    let alignment = grammar::alignment_of(a.value);
    lemma_tensors(r1, f1, r2, f2, a.end, alignment, counts.tensors, seq![]);
    if within(r2, f1, f2, a.end) {
        lemma_alike_alignment(r1, r2, a.value, b.value);
    }
    assert(counts.entries * 12 == 12 * counts.entries);
    assert(counts.tensors * 24 == 24 * counts.tensors);
}

/// The keys of the entries are well-formed and no two are the same.
pub open spec fn keys_valid(entries: Seq<Entry>) -> bool {
    &&& forall|i: int|
        0 <= i < entries.len() ==> {
            &&& grammar::is_metadata_key((#[trigger] entries[i]).key)
            &&& utf8::encode_utf8(entries[i].key).len() <= grammar::MAX_METADATA_KEY_BYTES
        }
    &&& forall|i: int, j: int|
        0 <= i < j < entries.len() ==> (#[trigger] entries[i]).key != (#[trigger] entries[j]).key
}

/// The names of the tensors are well-formed and no two are the same.
pub open spec fn names_valid(tensors: Seq<Tensor>) -> bool {
    &&& forall|i: int|
        0 <= i < tensors.len() ==> {
            let name = utf8::encode_utf8((#[trigger] tensors[i]).name);
            name.len() <= grammar::MAX_TENSOR_NAME_BYTES && !name.contains(0)
        }
    &&& forall|i: int, j: int|
        0 <= i < j < tensors.len() ==> (#[trigger] tensors[i]).name != (#[trigger] tensors[j]).name
}

/// A tensor has a supported type, at most four dimensions and the length that
/// follows from both.
pub open spec fn tensor_valid(tensor: Tensor) -> bool {
    &&& types::is_tensor_type(tensor.value_type)
    &&& tensor.shape.len() <= 4
    &&& grammar::element_count(tensor.shape) <= i64::MAX
    &&& grammar::row_length(tensor.shape) % types::block_size_of(tensor.value_type) == 0
    &&& tensor.byte_len == grammar::stored_bytes(tensor.shape, tensor.value_type)
}

/// The data of the tensors follows one another without a gap.
pub open spec fn tensors_placed(tensors: Seq<Tensor>, alignment: u32) -> bool {
    forall|i: int| 0 <= i < tensors.len() ==> #[trigger] tensor_placed(tensors, alignment, i)
}

/// The data of a tensor starts, aligned, where the padding of the tensor before
/// it ends.
pub open spec fn tensor_placed(tensors: Seq<Tensor>, alignment: u32, i: int) -> bool {
    &&& tensor_valid(tensors[i])
    &&& tensors[i].offset % alignment as nat == 0
    &&& tensors[i].offset == if i == 0 {
        0
    } else {
        tensors[i - 1].offset + grammar::align_up(tensors[i - 1].byte_len, alignment as nat)
    }
}

proof fn lemma_keys_valid(
    rules: Rules,
    file: Seq<u8>,
    position: nat,
    count: nat,
    done: Seq<Entry>,
)
    requires
        keys_valid(done),
        grammar::entries_from(rules, file, position, count, done) is Ok,
    ensures
        keys_valid(grammar::entries_from(rules, file, position, count, done)->Ok_0.value),
    decreases count - done.len(),
{
    if done.len() < count {
        reveal(grammar::entry_with_key);
        reveal(grammar::entry_with_value);
        reveal(grammar::key_fault);
        let entry = grammar::entry_at(rules, file, position, done)->Ok_0;
        let longer = done.push(entry.value);
        assert forall|i: int, j: int| 0 <= i < j < longer.len() implies (
        #[trigger] longer[i]).key != (#[trigger] longer[j]).key by {
            if j == done.len() {
                assert(done[i].key != entry.value.key);
            }
        }
        lemma_keys_valid(rules, file, entry.end, count, longer);
    }
}

proof fn lemma_shape_valid(
    rules: Rules,
    file: Seq<u8>,
    position: nat,
    count: nat,
    done: Seq<u64>,
)
    requires
        done.len() <= count,
        grammar::element_count(done) <= i64::MAX,
        grammar::shape_from(rules, file, position, count, done) is Ok,
    ensures
        ({
            let shape = grammar::shape_from(rules, file, position, count, done)->Ok_0.value;
            shape.len() == count && grammar::element_count(shape) <= i64::MAX
        }),
    decreases count - done.len(),
{
    if done.len() < count {
        let number = grammar::number_at(rules, file, position, 8)->Ok_0;
        lemma_shape_valid(rules, file, number.end, count, done.push(number.value as u64));
    }
}

proof fn lemma_tensors_valid(
    rules: Rules,
    file: Seq<u8>,
    position: nat,
    alignment: u32,
    count: nat,
    done: Seq<Tensor>,
)
    requires
        names_valid(done),
        tensors_placed(done, alignment),
        grammar::tensors_from(rules, file, position, alignment, count, done) is Ok,
    ensures
        ({
            let tensors = grammar::tensors_from(
                rules,
                file,
                position,
                alignment,
                count,
                done,
            )->Ok_0.value;
            names_valid(tensors) && tensors_placed(tensors, alignment)
        }),
    decreases count - done.len(),
{
    if done.len() < count {
        reveal(grammar::tensor_with_name);
        reveal(grammar::tensor_shape_at);
        reveal(grammar::tensor_with_shape);
        reveal(grammar::tensor_with_type);
        reveal(grammar::name_fault);
        let name = grammar::text_at(rules, file, position, "tensor name"@)->Ok_0;
        let rank = grammar::number_at(rules, file, name.end, 4)->Ok_0;
        lemma_shape_valid(rules, file, rank.end, rank.value, seq![]);
        let tensor = grammar::tensor_at(rules, file, position, alignment, done)->Ok_0;
        let longer = done.push(tensor.value);
        assert forall|i: int, j: int| 0 <= i < j < longer.len() implies (
        #[trigger] longer[i]).name != (#[trigger] longer[j]).name by {
            if j == done.len() {
                assert(done[i].name != tensor.value.name);
            }
        }
        assert forall|i: int| 0 <= i < longer.len() implies #[trigger] tensor_placed(
            longer,
            alignment,
            i,
        ) by {
            if i < done.len() {
                assert(tensor_placed(done, alignment, i));
            }
        }
        lemma_tensors_valid(rules, file, tensor.end, alignment, count, longer);
    }
}

/// The layout of a valid file: a supported version, an alignment that is a
/// power of two, tables within the limits with unique keys and names, and
/// aligned tensor data, one tensor behind the other, inside the file.
pub proof fn law_layout(rules: Rules, file: Seq<u8>)
    requires
        grammar::document(rules, file) is Ok,
    ensures
        ({
            let document = grammar::document(rules, file)->Ok_0;
            &&& document.version == 2 || document.version == 3
            &&& power2::is_pow2(document.alignment as int)
            &&& document.alignment == grammar::alignment_of(document.metadata)
            &&& document.metadata.len() <= rules.limits.max_metadata_entries
            &&& document.tensors.len() <= rules.limits.max_tensors
            &&& keys_valid(document.metadata)
            &&& names_valid(document.tensors)
            &&& tensors_placed(document.tensors, document.alignment)
            &&& reached(rules, file, document.header_size)
            &&& document.data_offset == grammar::data_offset_of(
                document.header_size,
                document.tensors,
                document.alignment,
            )
            &&& document.data_size == grammar::data_size_of(
                document.tensors,
                document.alignment,
            )
            &&& document.header_size <= document.data_offset
            &&& document.data_offset + document.data_size <= file.len()
        }),
{
    reveal(grammar::document_version_at);
    reveal(grammar::document_tensors_at);
    reveal(grammar::document_entries_at);
    reveal(grammar::document_with_entries);
    reveal(grammar::document_with_tensors);
    let document = grammar::document(rules, file)->Ok_0;
    lemma_bytes(rules, file, rules, file, 0, 4);
    lemma_bytes(rules, file, rules, file, 4, 4);
    let tensor_limit = rules.limits.max_tensors as nat;
    let entry_limit = rules.limits.max_metadata_entries as nat;
    lemma_count(rules, file, rules, file, 8, "tensor count"@, tensor_limit, tensor_limit);
    lemma_count(rules, file, rules, file, 16, "metadata count"@, entry_limit, entry_limit);
    let tensor_count = grammar::count_at(rules, file, 8, "tensor count"@, tensor_limit)->Ok_0;
    let entry_count = grammar::count_at(rules, file, 16, "metadata count"@, entry_limit)->Ok_0;
    lemma_entries(rules, file, rules, file, 24, entry_count.value, seq![], seq![]);
    lemma_keys_valid(rules, file, 24, entry_count.value, seq![]);
    let entries = grammar::entries_from(rules, file, 24, entry_count.value, seq![])->Ok_0;
    let alignment = document.alignment;
    lemma_tensors(rules, file, rules, file, entries.end, alignment, tensor_count.value, seq![]);
    lemma_tensors_valid(rules, file, entries.end, alignment, tensor_count.value, seq![]);
    reveal(power2::is_pow2);
    lemma_align_up_bounds(document.header_size, alignment as nat);
}

/// Rounding up yields the least multiple that is not below the value. The sum
/// that it takes fits into 64 bits just when that multiple does, if the
/// alignment is a power of two.
pub proof fn law_alignment_yields_the_least_multiple(value: nat, alignment: nat)
    requires
        alignment > 0,
    ensures
        grammar::align_up(value, alignment) % alignment == 0,
        value <= grammar::align_up(value, alignment) < value + alignment,
        forall|multiple: nat|
            multiple >= value && #[trigger] (multiple % alignment) == 0 ==> multiple
                >= grammar::align_up(value, alignment),
        power2::is_pow2(alignment as int) && alignment <= u64::MAX ==> (grammar::align_up(
            value,
            alignment,
        ) <= u64::MAX <==> value + alignment - 1 <= u64::MAX),
{
    let aligned = grammar::align_up(value, alignment);
    lemma_align_up_bounds(value, alignment);
    assert forall|multiple: nat|
        multiple >= value && #[trigger] (multiple % alignment) == 0 implies multiple
        >= aligned by {
        lemma_multiples_apart(multiple as int, aligned as int, alignment as int);
    }
    if power2::is_pow2(alignment as int) && alignment <= u64::MAX {
        lemma_power_divides(alignment as int);
        if aligned <= u64::MAX {
            lemma_multiples_apart(aligned as int, 0x1_0000_0000_0000_0000, alignment as int);
        }
    }
}

/// A multiple that is smaller than another is smaller by the alignment at least.
pub(crate) proof fn lemma_multiples_apart(a: int, b: int, alignment: int)
    requires
        alignment > 0,
        a % alignment == 0,
        b % alignment == 0,
    ensures
        a < b ==> a + alignment <= b,
{
    div_mod::lemma_fundamental_div_mod(a, alignment);
    div_mod::lemma_fundamental_div_mod(b, alignment);
    let x = a / alignment;
    let y = b / alignment;
    if a < b {
        assert(x < y) by (nonlinear_arith)
            requires
                alignment * x < alignment * y,
                alignment > 0,
        ;
        assert(alignment * x + alignment <= alignment * y) by (nonlinear_arith)
            requires
                x < y,
                alignment > 0,
        ;
    }
}

/// A power of two of at most 64 bits divides the first number of 65.
pub(crate) proof fn lemma_power_divides(alignment: int)
    requires
        power2::is_pow2(alignment),
        0 < alignment <= u64::MAX,
    ensures
        0x1_0000_0000_0000_0000int % alignment == 0,
{
    power2::is_pow2_equiv(alignment);
    let n = choose|n: nat| power::pow(2, n) == alignment;
    power2::lemma_pow2(n);
    power2::lemma2_to64();
    if n > 64 {
        power2::lemma_pow2_strictly_increases(64, n);
    }
    let rest = (64 - n) as nat;
    power2::lemma_pow2_adds(rest, n);
    div_mod::lemma_mod_multiples_basic(power2::pow2(rest) as int, alignment);
}

pub(crate) proof fn lemma_align_up_bounds(value: nat, alignment: nat)
    requires
        alignment > 0,
    ensures
        value <= grammar::align_up(value, alignment) < value + alignment,
        grammar::align_up(value, alignment) % alignment == 0,
{
    if value % alignment != 0 {
        let quotient = value / alignment;
        div_mod::lemma_fundamental_div_mod(value as int, alignment as int);
        vstd::arithmetic::mul::lemma_mul_is_commutative(alignment as int, quotient as int);
        assert((quotient + 1) * alignment == quotient * alignment + alignment) by (nonlinear_arith);
        div_mod::lemma_mod_multiples_basic(
            (quotient + 1) as int,
            alignment as int,
        );
    }
}

/// The data of every tensor of a valid file lies inside the tensor data.
pub proof fn law_tensor_data_present(rules: Rules, file: Seq<u8>, index: int)
    requires
        grammar::document(rules, file) matches Ok(document) && 0 <= index
            < document.tensors.len(),
    ensures
        ({
            let document = grammar::document(rules, file)->Ok_0;
            document.tensors[index].offset + document.tensors[index].byte_len
                <= document.data_size
        }),
{
    law_layout(rules, file);
    let document = grammar::document(rules, file)->Ok_0;
    reveal(power2::is_pow2);
    lemma_data_inside(document.tensors, document.alignment, index);
}

proof fn lemma_data_inside(tensors: Seq<Tensor>, alignment: u32, index: int)
    requires
        alignment > 0,
        tensors_placed(tensors, alignment),
        0 <= index < tensors.len(),
    ensures
        tensors[index].offset + tensors[index].byte_len <= grammar::data_size_of(
            tensors,
            alignment,
        ),
    decreases tensors.len() - index,
{
    lemma_align_up_bounds(tensors[index].byte_len, alignment as nat);
    if index < tensors.len() - 1 {
        lemma_data_inside(tensors, alignment, index + 1);
        assert(tensor_placed(tensors, alignment, index + 1));
    }
}

/// A file that was written with the opposite byte order is recognised as such.
pub proof fn law_swapped_files_are_rejected(rules: Rules, file: Seq<u8>)
    requires
        file.len() >= 8,
        rules.header_limit matches Some(limit) ==> limit >= 8,
        file.take(4) == seq![71u8, 71u8, 85u8, 70u8],
        2 <= bytes::le_value(file.subrange(4, 8).reverse()) <= 3,
    ensures
        grammar::document(rules, file) == Err::<Document, Failure>(
            Failure {
                offset: 8,
                fault: Fault::EndiannessMismatch(bytes::le_value(file.subrange(4, 8)) as u32),
            },
        ),
{
    reveal(grammar::document_version_at);
    reveal(grammar::bytes_at);
    assert(file.subrange(0, 4) =~= file.take(4));
}

/// The seekable reader and the parser of whole files accept the same files,
/// and find the same layout in them, as long as the header does not pass the
/// reader's limit.
pub proof fn law_reader_agrees(
    limits: Limits,
    max_header_bytes: u64,
    file: Seq<u8>,
)
    requires
        file.len() <= usize::MAX,
    ensures
        ({
            let whole = grammar::document(Rules { limits, header_limit: None }, file);
            let streamed = grammar::document(
                Rules { limits, header_limit: Some(max_header_bytes) },
                file,
            );
            &&& streamed is Ok <==> (whole matches Ok(document) && document.header_size
                <= max_header_bytes)
            &&& whole matches Ok(a) ==> streamed matches Ok(b) ==> header::header_of(
                a,
                file.len(),
            ) == header::header_of(b, file.len())
        }),
{
    let r1 = Rules { limits, header_limit: None };
    let r2 = Rules { limits, header_limit: Some(max_header_bytes) };
    let whole = grammar::document(r1, file);
    let streamed = grammar::document(r2, file);
    if whole is Ok {
        law_layout(r1, file);
        if whole->Ok_0.header_size <= max_header_bytes {
            lemma_document(r1, file, r2, file);
        }
    }
    if streamed is Ok {
        law_layout(r2, file);
        lemma_document(r2, file, r1, file);
    }
}

/// The larger of two numbers.
pub open spec fn larger(a: nat, b: nat) -> nat {
    if a >= b {
        a
    } else {
        b
    }
}

/// The most bytes that are looked for at once under given limits.
pub open spec fn longest_request(limits: Limits) -> nat {
    let tables = larger(
        12 * limits.max_metadata_entries as nat,
        24 * limits.max_tensors as nat,
    );
    let values = larger(limits.max_string_bytes as nat, 8 * limits.max_array_elements as nat);
    larger(8, larger(tables, values))
}

/// A failure that only a reader with a header limit reports: what it looked for
/// lies beyond the range of positions, or beyond its limit.
pub open spec fn stopped(rules: Rules, size: nat, failure: Failure) -> bool {
    match failure.fault {
        Fault::IntegerOverflow(field) => {
            &&& field == "reader position"@
            &&& size + longest_request(rules.limits) > usize::MAX
        },
        Fault::LimitExceeded { field, value, limit } => {
            &&& field == "header bytes"@
            &&& rules.header_limit matches Some(most) && limit == most
            &&& limit < value <= usize::MAX
        },
        _ => false,
    }
}

/// The reader stopped, or both readings yield the same.
pub open spec fn same<T>(
    rules: Rules,
    size: nat,
    whole: Result<T, Failure>,
    streamed: Result<T, Failure>,
) -> bool {
    ||| streamed matches Err(failure) && stopped(rules, size, failure)
    ||| streamed == whole
}

/// The reader stopped, or both readings fail alike, or both yield values that
/// are alike.
pub open spec fn same_value(
    r1: Rules,
    r2: Rules,
    size: nat,
    whole: Reading<Value>,
    streamed: Reading<Value>,
) -> bool {
    ||| streamed matches Err(failure) && stopped(r2, size, failure)
    ||| streamed is Err && streamed == whole
    ||| readings_alike(r1, r2, whole, streamed)
}

/// `r1` are the rules for a file in memory and `r2` those for a reader.
pub open spec fn paired(r1: Rules, r2: Rules, file: Seq<u8>) -> bool {
    &&& r1.limits == r2.limits
    &&& r1.header_limit is None
    &&& r2.header_limit is Some
    &&& file.len() <= usize::MAX
}

proof fn lemma_same_bytes(r1: Rules, r2: Rules, file: Seq<u8>, position: nat, length: nat)
    requires
        paired(r1, r2, file),
        position <= file.len(),
        length <= longest_request(r1.limits),
    ensures
        same(
            r2,
            file.len(),
            grammar::bytes_at(r1, file, position, length),
            grammar::bytes_at(r2, file, position, length),
        ),
        grammar::bytes_at(r1, file, position, length) matches Ok(bytes) ==> bytes.end
            <= file.len(),
{
    reveal(grammar::bytes_at);
}

proof fn lemma_same_number(r1: Rules, r2: Rules, file: Seq<u8>, position: nat, width: nat)
    requires
        paired(r1, r2, file),
        position <= file.len(),
        width <= 8,
    ensures
        same(
            r2,
            file.len(),
            grammar::number_at(r1, file, position, width),
            grammar::number_at(r2, file, position, width),
        ),
        grammar::number_at(r1, file, position, width) matches Ok(read) ==> read.end <= file.len(),
{
    reveal(grammar::number_at);
    lemma_same_bytes(r1, r2, file, position, width);
}

proof fn lemma_same_count(
    r1: Rules,
    r2: Rules,
    file: Seq<u8>,
    position: nat,
    field: Seq<char>,
    limit: nat,
)
    requires
        paired(r1, r2, file),
        position <= file.len(),
    ensures
        same(
            r2,
            file.len(),
            grammar::count_at(r1, file, position, field, limit),
            grammar::count_at(r2, file, position, field, limit),
        ),
        grammar::count_at(r1, file, position, field, limit) matches Ok(read) ==> read.end
            <= file.len() && read.value <= limit,
{
    reveal(grammar::count_at);
    lemma_same_number(r1, r2, file, position, 8);
}

proof fn lemma_same_text(r1: Rules, r2: Rules, file: Seq<u8>, position: nat, field: Seq<char>)
    requires
        paired(r1, r2, file),
        position <= file.len(),
    ensures
        same(
            r2,
            file.len(),
            grammar::text_at(r1, file, position, field),
            grammar::text_at(r2, file, position, field),
        ),
        grammar::text_at(r1, file, position, field) matches Ok(read) ==> read.end <= file.len(),
{
    reveal(grammar::text_at);
    reveal(grammar::characters_at);
    let limit = r1.limits.max_string_bytes as nat;
    lemma_same_count(r1, r2, file, position, field, limit);
    if let Ok(count) = grammar::count_at(r1, file, position, field, limit) {
        lemma_same_bytes(r1, r2, file, count.end, count.value);
    }
}

proof fn lemma_same_texts(
    r1: Rules,
    r2: Rules,
    file: Seq<u8>,
    position: nat,
    count: nat,
    done: Seq<Seq<char>>,
)
    requires
        paired(r1, r2, file),
        position <= file.len(),
    ensures
        same(
            r2,
            file.len(),
            grammar::texts_from(r1, file, position, count, done),
            grammar::texts_from(r2, file, position, count, done),
        ),
        grammar::texts_from(r1, file, position, count, done) matches Ok(read) ==> read.end <= file.len(),
    decreases count - done.len(),
{
    if done.len() < count {
        let field = "metadata array string"@;
        lemma_same_text(r1, r2, file, position, field);
        if let Ok(text) = grammar::text_at(r1, file, position, field) {
            lemma_same_texts(r1, r2, file, text.end, count, done.push(text.value));
        }
    }
}

proof fn lemma_same_table(
    r1: Rules,
    r2: Rules,
    file: Seq<u8>,
    position: nat,
    count: nat,
    width: nat,
    field: Seq<char>,
)
    requires
        paired(r1, r2, file),
        position <= file.len(),
        count * width <= longest_request(r1.limits),
    ensures
        ({
            let streamed = grammar::table_fault(r2, file.len(), position, count, width, field);
            ||| streamed == grammar::table_fault(r1, file.len(), position, count, width, field)
            ||| streamed matches Some(fault) && stopped(
                r2,
                file.len(),
                Failure { offset: position, fault },
            )
        }),
{
}

proof fn lemma_same_value(r1: Rules, r2: Rules, file: Seq<u8>, position: nat)
    requires
        paired(r1, r2, file),
        position <= file.len(),
    ensures
        same_value(
            r1,
            r2,
            file.len(),
            grammar::value_at(r1, file, position),
            grammar::value_at(r2, file, position),
        ),
        grammar::value_at(r1, file, position) matches Ok(read) ==> read.end <= file.len(),
{
    reveal(grammar::value_at);
    lemma_same_number(r1, r2, file, position, 4);
    if let Ok(code) = grammar::number_at(r1, file, position, 4) {
        match types::metadata_type_of(code.value as u32) {
            None => {},
            Some(MetadataType::Array) => {
                lemma_same_array(r1, r2, file, code.end);
            },
            Some(value_type) => {
                reveal(grammar::scalar_at);
                match types::fixed_width_of(value_type) {
                    None => {
                        lemma_same_text(r1, r2, file, code.end, "metadata string"@);
                    },
                    Some(width) => {
                        lemma_same_bytes(r1, r2, file, code.end, width);
                    },
                }
            },
        }
    }
}

proof fn lemma_same_array(r1: Rules, r2: Rules, file: Seq<u8>, position: nat)
    requires
        paired(r1, r2, file),
        position <= file.len(),
    ensures
        same_value(
            r1,
            r2,
            file.len(),
            grammar::array_at(r1, file, position),
            grammar::array_at(r2, file, position),
        ),
        grammar::array_at(r1, file, position) matches Ok(read) ==> read.end <= file.len(),
{
    reveal(grammar::array_at);
    reveal(grammar::array_length_at);
    reveal(grammar::items_at);
    reveal(grammar::fixed_array_at);
    lemma_same_number(r1, r2, file, position, 4);
    if let Ok(code) = grammar::number_at(r1, file, position, 4) {
        if let Some(element_type) = types::metadata_type_of(code.value as u32) {
            let field = "metadata array length"@;
            let limit = r1.limits.max_array_elements as nat;
            lemma_same_count(r1, r2, file, code.end, field, limit);
            if let Ok(count) = grammar::count_at(r1, file, code.end, field, limit) {
                if element_type == MetadataType::String {
                    lemma_same_table(
                        r1,
                        r2,
                        file,
                        count.end,
                        count.value,
                        8,
                        "metadata string array headers"@,
                    );
                    lemma_same_texts(r1, r2, file, count.end, count.value, seq![]);
                } else if element_type != MetadataType::Array {
                    let width = types::fixed_width_of(element_type)->0;
                    assert(count.value * width <= 8 * limit) by (nonlinear_arith)
                        requires
                            count.value <= limit,
                            0 <= width <= 8,
                    ;
                    lemma_same_bytes(r1, r2, file, count.end, count.value * width);
                }
            }
        }
    }
}

proof fn lemma_same_entries(
    r1: Rules,
    r2: Rules,
    file: Seq<u8>,
    position: nat,
    count: nat,
    d1: Seq<Entry>,
    d2: Seq<Entry>,
)
    requires
        paired(r1, r2, file),
        position <= file.len(),
        entries_alike(r1, r2, d1, d2),
    ensures
        ({
            let whole = grammar::entries_from(r1, file, position, count, d1);
            let streamed = grammar::entries_from(r2, file, position, count, d2);
            ||| streamed matches Err(failure) && stopped(r2, file.len(), failure)
            ||| streamed is Err && streamed == whole
            ||| whole matches Ok(a) && streamed matches Ok(b) && a.end == b.end && entries_alike(
                r1,
                r2,
                a.value,
                b.value,
            )
        }),
    decreases count - d1.len(),
{
    if d1.len() < count {
        reveal(grammar::entry_with_key);
        reveal(grammar::entry_with_value);
        let field = "metadata key"@;
        lemma_same_text(r1, r2, file, position, field);
        if let Ok(key) = grammar::text_at(r1, file, position, field) {
            lemma_alike_keys(r1, r2, d1, d2, key.value);
            lemma_same_value(r1, r2, file, key.end);
        }
        let whole = grammar::entry_at(r1, file, position, d1);
        let streamed = grammar::entry_at(r2, file, position, d2);
        if whole is Ok && streamed is Ok {
            let a = whole->Ok_0;
            let b = streamed->Ok_0;
            lemma_same_entries(
                r1,
                r2,
                file,
                a.end,
                count,
                d1.push(a.value),
                d2.push(b.value),
            );
        }
    }
}

proof fn lemma_same_shape(
    r1: Rules,
    r2: Rules,
    file: Seq<u8>,
    position: nat,
    count: nat,
    done: Seq<u64>,
)
    requires
        paired(r1, r2, file),
        position <= file.len(),
    ensures
        same(
            r2,
            file.len(),
            grammar::shape_from(r1, file, position, count, done),
            grammar::shape_from(r2, file, position, count, done),
        ),
        grammar::shape_from(r1, file, position, count, done) matches Ok(read) ==> read.end <= file.len(),
    decreases count - done.len(),
{
    if done.len() < count {
        lemma_same_number(r1, r2, file, position, 8);
        if let Ok(number) = grammar::number_at(r1, file, position, 8) {
            lemma_same_shape(
                r1,
                r2,
                file,
                number.end,
                count,
                done.push(number.value as u64),
            );
        }
    }
}

proof fn lemma_same_tensor(
    r1: Rules,
    r2: Rules,
    file: Seq<u8>,
    position: nat,
    alignment: u32,
    done: Seq<Tensor>,
)
    requires
        paired(r1, r2, file),
        position <= file.len(),
    ensures
        same(
            r2,
            file.len(),
            grammar::tensor_at(r1, file, position, alignment, done),
            grammar::tensor_at(r2, file, position, alignment, done),
        ),
        grammar::tensor_at(r1, file, position, alignment, done) matches Ok(read) ==> read.end <= file.len(),
{
    reveal(grammar::tensor_with_name);
    reveal(grammar::tensor_shape_at);
    reveal(grammar::tensor_with_shape);
    reveal(grammar::tensor_with_type);
    let field = "tensor name"@;
    lemma_same_text(r1, r2, file, position, field);
    if let Ok(name) = grammar::text_at(r1, file, position, field) {
        lemma_same_number(r1, r2, file, name.end, 4);
        if let Ok(count) = grammar::number_at(r1, file, name.end, 4) {
            lemma_same_shape(r1, r2, file, count.end, count.value, seq![]);
            if let Ok(shape) = grammar::shape_from(r1, file, count.end, count.value, seq![]) {
                lemma_same_number(r1, r2, file, shape.end, 4);
                if let Ok(code) = grammar::number_at(r1, file, shape.end, 4) {
                    lemma_same_number(r1, r2, file, code.end, 8);
                }
            }
        }
    }
}

proof fn lemma_same_tensors(
    r1: Rules,
    r2: Rules,
    file: Seq<u8>,
    position: nat,
    alignment: u32,
    count: nat,
    done: Seq<Tensor>,
)
    requires
        paired(r1, r2, file),
        position <= file.len(),
    ensures
        same(
            r2,
            file.len(),
            grammar::tensors_from(r1, file, position, alignment, count, done),
            grammar::tensors_from(r2, file, position, alignment, count, done),
        ),
        grammar::tensors_from(r1, file, position, alignment, count, done) matches Ok(read) ==> read.end <= file.len(),
    decreases count - done.len(),
{
    if done.len() < count {
        lemma_same_tensor(r1, r2, file, position, alignment, done);
        if let Ok(tensor) = grammar::tensor_at(r1, file, position, alignment, done) {
            lemma_same_tensors(
                r1,
                r2,
                file,
                tensor.end,
                alignment,
                count,
                done.push(tensor.value),
            );
        }
    }
}

/// A reader that is not stopped by its header limit or the range of positions
/// reports what is wrong with a file just as the parser of whole files does.
pub proof fn law_reader_reports_alike(
    limits: Limits,
    max_header_bytes: u64,
    file: Seq<u8>,
)
    requires
        file.len() <= usize::MAX,
    ensures
        ({
            let whole = grammar::document(Rules { limits, header_limit: None }, file);
            let streamed = grammar::document(
                Rules { limits, header_limit: Some(max_header_bytes) },
                file,
            );
            streamed matches Err(failure) ==> stopped(
                Rules { limits, header_limit: Some(max_header_bytes) },
                file.len(),
                failure,
            ) || whole == streamed
        }),
{
    let r1 = Rules { limits, header_limit: None };
    let r2 = Rules { limits, header_limit: Some(max_header_bytes) };
    reveal(grammar::document_version_at);
    lemma_same_bytes(r1, r2, file, 0, 4);
    if grammar::bytes_at(r1, file, 0, 4) is Ok {
        lemma_bytes(r1, file, r1, file, 0, 4);
        lemma_same_bytes(r1, r2, file, 4, 4);
        if let Ok(version) = grammar::bytes_at(r1, file, 4, 4) {
            lemma_bytes(r1, file, r1, file, 4, 4);
            lemma_same_counts(r1, r2, file, bytes::le_value(version.value) as u32);
        }
    }
}

/// The part of `law_reader_reports_alike` behind the version.
proof fn lemma_same_counts(r1: Rules, r2: Rules, file: Seq<u8>, version: u32)
    requires
        paired(r1, r2, file),
        8 <= file.len(),
    ensures
        ({
            let whole = grammar::document_tensors_at(r1, file, 8, version);
            let streamed = grammar::document_tensors_at(r2, file, 8, version);
            streamed matches Err(failure) ==> stopped(r2, file.len(), failure) || whole == streamed
        }),
{
    reveal(grammar::document_tensors_at);
    reveal(grammar::document_entries_at);
    let tensor_limit = r1.limits.max_tensors as nat;
    let entry_limit = r1.limits.max_metadata_entries as nat;
    lemma_same_count(r1, r2, file, 8, "tensor count"@, tensor_limit);
    if let Ok(tensors) = grammar::count_at(r1, file, 8, "tensor count"@, tensor_limit) {
        lemma_count(r1, file, r1, file, 8, "tensor count"@, tensor_limit, tensor_limit);
        lemma_same_count(r1, r2, file, 16, "metadata count"@, entry_limit);
        if let Ok(entries) = grammar::count_at(r1, file, 16, "metadata count"@, entry_limit) {
            lemma_count(r1, file, r1, file, 16, "metadata count"@, entry_limit, entry_limit);
            assert(entries.value * 12 == 12 * entries.value);
            lemma_same_table(
                r1,
                r2,
                file,
                24,
                entries.value,
                grammar::MIN_METADATA_ENTRY_BYTES as nat,
                "metadata table"@,
            );
            lemma_same_document(
                r1,
                r2,
                file,
                Counts { version, tensors: tensors.value, entries: entries.value },
            );
        }
    }
}

/// The part of `law_reader_reports_alike` behind the counts.
proof fn lemma_same_document(r1: Rules, r2: Rules, file: Seq<u8>, counts: Counts)
    requires
        paired(r1, r2, file),
        24 <= file.len(),
        counts.tensors <= r1.limits.max_tensors,
    ensures
        ({
            let whole = grammar::document_with_entries(
                r1,
                file,
                counts,
                grammar::entries_from(r1, file, 24, counts.entries, seq![]),
            );
            let streamed = grammar::document_with_entries(
                r2,
                file,
                counts,
                grammar::entries_from(r2, file, 24, counts.entries, seq![]),
            );
            streamed matches Err(failure) ==> stopped(r2, file.len(), failure) || whole == streamed
        }),
{
    reveal(grammar::document_with_entries);
    reveal(grammar::document_with_tensors);
    lemma_same_entries(r1, r2, file, 24, counts.entries, seq![], seq![]);
    let whole = grammar::entries_from(r1, file, 24, counts.entries, seq![]);
    let streamed = grammar::entries_from(r2, file, 24, counts.entries, seq![]);
    if whole is Ok && streamed is Ok {
        let a = whole->Ok_0;
        let b = streamed->Ok_0;
        lemma_alike_alignment(r1, r2, a.value, b.value);
        lemma_entries(r1, file, r1, file, 24, counts.entries, seq![], seq![]);
        let alignment = grammar::alignment_of(a.value);
        assert(counts.tensors * 24 == 24 * counts.tensors);
        lemma_same_table(
            r1,
            r2,
            file,
            a.end,
            counts.tensors,
            grammar::MIN_TENSOR_INFO_BYTES as nat,
            "tensor table"@,
        );
        lemma_same_tensors(r1, r2, file, a.end, alignment, counts.tensors, seq![]);
    }
}

/// A reader without a limit on the header and the parser of whole files say the
/// same of every file: the same failure at the same offset, or the same layout.
///
/// The positions that the limits let a reader look at have to be numbers that
/// the machine can hold.
pub proof fn law_unlimited_reader_says_the_same(limits: Limits, file: Seq<u8>)
    requires
        file.len() + longest_request(limits) <= usize::MAX,
    ensures
        ({
            let whole = grammar::document(Rules { limits, header_limit: None }, file);
            let streamed = grammar::document(
                Rules { limits, header_limit: Some(u64::MAX) },
                file,
            );
            match whole {
                Ok(a) => streamed matches Ok(b) && header::header_of(a, file.len())
                    == header::header_of(b, file.len()),
                Err(failure) => streamed == Err::<Document, Failure>(failure),
            }
        }),
{
    let whole = Rules { limits, header_limit: None };
    law_reader_agrees(limits, u64::MAX, file);
    law_reader_reports_alike(limits, u64::MAX, file);
    if grammar::document(whole, file) is Ok {
        law_layout(whole, file);
    }
}

/// A file that is accepted under some limits is accepted under limits that are
/// no narrower, and holds the same: the limits that go with the C
/// implementation of the format accept every file that the default ones do.
pub proof fn law_wider_limits_accept_the_same(narrow: Rules, wide: Rules, file: Seq<u8>)
    requires
        file.len() <= usize::MAX,
        no_narrower(narrow.limits, wide.limits),
        match narrow.header_limit {
            None => wide.header_limit is None,
            Some(a) => wide.header_limit matches Some(b) && a <= b,
        },
        grammar::document(narrow, file) is Ok,
    ensures
        grammar::document(wide, file) == grammar::document(narrow, file),
{
    law_layout(narrow, file);
    lemma_document(narrow, file, wide, file);
    let a = grammar::document(narrow, file)->Ok_0;
    let b = grammar::document(wide, file)->Ok_0;
    assert(a.metadata =~= b.metadata);
}

/// The tables alone decide what a file holds: another file with the same tables
/// has the same contents if it is long enough for the tensor data, and is
/// rejected otherwise. Padding, tensor data and trailing bytes do not matter.
pub proof fn law_tables_decide(rules: Rules, file: Seq<u8>, other: Seq<u8>)
    requires
        file.len() <= usize::MAX,
        grammar::document(rules, file) matches Ok(document) && {
            &&& document.header_size <= other.len()
            &&& file.take(document.header_size as int) == other.take(document.header_size as int)
        },
    ensures
        ({
            let document = grammar::document(rules, file)->Ok_0;
            if other.len() >= document.data_offset + document.data_size {
                grammar::document(rules, other) == grammar::document(rules, file)
            } else {
                grammar::document(rules, other) is Err
            }
        }),
{
    law_layout(rules, file);
    let document = grammar::document(rules, file)->Ok_0;
    let size = document.header_size as int;
    assert forall|i: int| 0 <= i < size implies #[trigger] other[i] == file[i] by {
        assert(other.take(size)[i] == file.take(size)[i]);
    }
    lemma_document(rules, file, rules, other);
    if let Ok(found) = grammar::document(rules, other) {
        assert(found.metadata =~= document.metadata);
    }
}

/// A file that is cut off before the end of its tensor data is rejected.
pub proof fn law_truncation_is_rejected(rules: Rules, file: Seq<u8>, length: nat)
    requires
        file.len() <= usize::MAX,
        grammar::document(rules, file) matches Ok(document) && length < document.data_offset
            + document.data_size,
    ensures
        grammar::document(rules, file.take(length as int)) is Err,
{
    law_layout(rules, file);
    let document = grammar::document(rules, file)->Ok_0;
    let cut = file.take(length as int);
    if length >= document.header_size {
        assert(cut.take(document.header_size as int) =~= file.take(document.header_size as int));
        law_tables_decide(rules, file, cut);
    } else if let Ok(found) = grammar::document(rules, cut) {
        law_layout(rules, cut);
        lemma_document(rules, cut, rules, file);
        assert(found.header_size == document.header_size);
    }
}

} // verus!
