//! What reports say of the files that they are made from.

use vstd::prelude::*;
use vstd::utf8;

use crate::gguf::anatomy;
use crate::gguf::error::Error;
use crate::gguf::grammar;
use crate::gguf::types::{Scalar, Value};
use crate::gguf::writing;
use crate::gguf::writing::Parts;
use crate::inspect::report;
use crate::inspect::report::FloatText;
use crate::model::index;
use crate::model::opening_laws;
use crate::text;

verus! {

/// What a tensor's line says: its name, its dimensions, its type, its place in the
/// tensor data and in the file, and its length.
pub open spec fn row_text(parts: Parts, i: int) -> Seq<char> {
    let row = parts.table[i];
    let code = row.value_type;
    let kind = anatomy::family(code) + text::decimal(anatomy::bits_in_name(code))
        + anatomy::variant(code);
    "tensor "@ + text::debug_quoted(row.name) + " "@ + text::number_list(
        row.shape.map_values(|v: u64| v as nat),
    ) + " "@ + kind + " offset="@ + text::decimal(row.offset) + " file_offset="@
        + text::decimal(parts.data_offset + row.offset) + " bytes="@ + text::decimal(row.byte_len)
}

/// What a line says of a whole number.
pub open spec fn number_text(kind: Seq<char>, value: int) -> Seq<char> {
    kind + "("@ + if value < 0 {
        "-"@ + text::decimal((-value) as nat)
    } else {
        text::decimal(value as nat)
    } + ")"@
}

/// What a line says of a value: the kind and the number of whole numbers, the
/// answer of flags, the first 256 characters of texts, and the kind and the number
/// of the items of arrays. Nothing is said of floating-point numbers here.
pub open spec fn value_text(value: Value, full: bool, line: Seq<char>) -> bool {
    match value {
        Value::Scalar(Scalar::U8(x)) => line == number_text("U8"@, x as int),
        Value::Scalar(Scalar::I8(x)) => line == number_text("I8"@, x as int),
        Value::Scalar(Scalar::U16(x)) => line == number_text("U16"@, x as int),
        Value::Scalar(Scalar::I16(x)) => line == number_text("I16"@, x as int),
        Value::Scalar(Scalar::U32(x)) => line == number_text("U32"@, x as int),
        Value::Scalar(Scalar::I32(x)) => line == number_text("I32"@, x as int),
        Value::Scalar(Scalar::U64(x)) => line == number_text("U64"@, x as int),
        Value::Scalar(Scalar::I64(x)) => line == number_text("I64"@, x as int),
        Value::Scalar(Scalar::Bool(true)) => line == "Bool"@ + "("@ + "true"@ + ")"@,
        Value::Scalar(Scalar::Bool(false)) => line == "Bool"@ + "("@ + "false"@ + ")"@,
        Value::Scalar(Scalar::String(t)) => line == if full || t.len() <= 256 {
            text::debug_quoted(t)
        } else {
            text::debug_quoted(t.subrange(0, 256)) + "...<truncated; "@ + text::decimal(
                utf8::encode_utf8(t).len(),
            ) + " bytes total>"@
        },
        Value::Array { items, .. } => {
            let end = text::decimal(items.len()) + "]"@;
            exists|start: Seq<char>| line == #[trigger] (start + end)
        },
        _ => true,
    }
}

/// A report has six lines on the file, one for each metadata entry and one for each
/// tensor, in the order of the file. They say what the file is made of.
pub proof fn law_reports_say_what_files_are_made_of<F: FloatText>(
    floats: &F,
    bytes: &[u8],
    full: bool,
    parts: Parts,
    result: Result<Vec<String>, Error>,
    i: int,
)
    requires
        opening_laws::is_model_file(bytes@, parts),
        call_ensures(report::inspect::<F>, (bytes, full, floats), result),
    ensures
        result is Ok,
        ({
            let lines = result->Ok_0@;
            let entries = parts.metadata.len();
            &&& lines.len() == 6 + entries + parts.table.len()
            &&& lines[0]@ == "file bytes: "@ + text::decimal(bytes@.len())
            &&& lines[1]@ == "version: "@ + text::decimal(parts.version as nat)
            &&& lines[2]@ == "alignment: "@ + text::decimal(parts.alignment as nat)
            &&& lines[3]@ == "metadata entries: "@ + text::decimal(entries)
            &&& lines[4]@ == "tensors: "@ + text::decimal(parts.table.len())
            &&& lines[5]@ == "data offset: "@ + text::decimal(parts.data_offset)
            &&& 0 <= i < entries ==> exists|shown: Seq<char>|
                {
                    &&& lines[6 + i]@ == "metadata "@ + text::debug_quoted(
                        parts.metadata[i].key,
                    ) + " = "@ + shown
                    &&& #[trigger] value_text(parts.metadata[i].value, full, shown)
                }
            &&& 0 <= i < parts.table.len() ==> lines[6 + entries + i]@ == row_text(parts, i)
        }),
{
    writing::lemma_file_written(opening_laws::model_limits(), bytes@, parts);
    let document = grammar::document(index::model_rules(), bytes@)->Ok_0;
    let lines = result->Ok_0@;
    let texts = report::line_texts(lines);
    assert(report::reported(floats, document, bytes@.len(), full, texts));
    let summary = report::summary_lines(document, bytes@.len());
    assert(texts.take(6) == summary);
    assert(texts.take(6)[0] == lines[0]@ && texts.take(6)[1] == lines[1]@);
    assert(texts.take(6)[2] == lines[2]@ && texts.take(6)[3] == lines[3]@);
    assert(texts.take(6)[4] == lines[4]@ && texts.take(6)[5] == lines[5]@);
    let entries = parts.metadata.len() as int;
    if 0 <= i < entries {
        lemma_entry(floats, document, full, texts, i);
        assert(texts[6 + i] == lines[6 + i]@);
    }
    if 0 <= i < parts.table.len() {
        let row = parts.table[i];
        assert(document.tensors[i] == row);
        assert(texts[6 + entries + i] == lines[6 + entries + i]@);
        lemma_row(bytes@, parts, i);
    }
}

/// The line of a tensor.
proof fn lemma_row(file: Seq<u8>, parts: Parts, i: int)
    requires
        opening_laws::is_model_file(file, parts),
        0 <= i < parts.table.len(),
    ensures
        report::tensor_line(parts.table[i], parts.data_offset) == row_text(parts, i),
{
    reveal(writing::is_made_of);
    let row = parts.table[i];
    assert(writing::tensor_allowed(writing::rules_of(opening_laws::model_limits()), row));
    anatomy::lemma_name(row.value_type);
}

proof fn lemma_entry<F: FloatText>(
    floats: &F,
    document: grammar::Document,
    full: bool,
    lines: Seq<Seq<char>>,
    i: int,
)
    requires
        0 <= i < document.metadata.len(),
        report::entry_reported(floats, document.metadata[i], full, lines[6 + i]),
    ensures
        exists|shown: Seq<char>|
            {
                &&& lines[6 + i] == "metadata "@ + text::debug_quoted(
                    document.metadata[i].key,
                ) + " = "@ + shown
                &&& #[trigger] value_text(document.metadata[i].value, full, shown)
            },
{
    let entry = document.metadata[i];
    let start = "metadata "@ + text::debug_quoted(entry.key) + " = "@;
    match entry.value {
        Value::Scalar(value) => {
            let shown = choose|shown: Seq<char>| #[trigger]
                report::rendered(floats, value, full, shown) && lines[6 + i] == start + shown;
            if let Scalar::String(t) = value {
                assert(t.len() > 256 ==> t.subrange(0, 256) =~= t.take(256));
            }
            assert(value_text(entry.value, full, shown));
        },
        Value::Array { element_type, items } => {
            let front = "array<"@ + crate::model::metadata::declared_name(element_type) + ">["@;
            let end = text::decimal(items.len()) + "]"@;
            let shown = front + end;
            assert(lines[6 + i] =~= start + shown);
            assert(value_text(entry.value, full, shown));
        },
    }
}

} // verus!
