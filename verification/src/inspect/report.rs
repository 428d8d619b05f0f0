//! What is reported of a file.

use vstd::prelude::*;
use vstd::string::*;
use vstd::utf8;

use crate::gguf::error::Error;
use crate::gguf::file::Gguf;
use crate::gguf::grammar;
use crate::gguf::grammar::Document;
use crate::gguf::laws as gguf_laws;
use crate::gguf::types;
use crate::gguf::types::{Entry, MetadataEntry, MetadataValue, Scalar, ScalarValue, Tensor, TensorInfo, Value};
use crate::model::index;
use crate::model::metadata;
use crate::text;

verus! {

/// How many characters of a text are shown at most, unless all are asked for.
pub const DEFAULT_STRING_PREVIEW_CHARS: usize = 256;

/// The text of floating-point numbers, which are given by their bits.
///
/// Nothing is asked of an implementation: contracts say where its texts stand,
/// and leave open what they are.
pub trait FloatText {
    fn single(&self, bits: u32) -> String;

    fn double(&self, bits: u64) -> String;
}

/// A text, quoted and escaped, and cut off unless all of it is asked for.
pub open spec fn text_preview(value: Seq<char>, full_output: bool) -> Seq<char> {
    if full_output || value.len() <= DEFAULT_STRING_PREVIEW_CHARS {
        text::debug_quoted(value)
    } else {
        text::debug_quoted(value.take(DEFAULT_STRING_PREVIEW_CHARS as int))
            + "...<truncated; "@ + text::decimal(utf8::encode_utf8(value).len())
            + " bytes total>"@
    }
}

/// A name with a value in brackets behind it.
pub open spec fn tagged(name: Seq<char>, value: Seq<char>) -> Seq<char> {
    name + "("@ + value + ")"@
}

/// `line` is the text of a scalar.
pub open spec fn rendered<F: FloatText>(
    floats: &F,
    value: Scalar,
    full_output: bool,
    line: Seq<char>,
) -> bool {
    match value {
        Scalar::U8(value) => line == tagged("U8"@, text::decimal(value as nat)),
        Scalar::I8(value) => line == tagged("I8"@, text::signed_decimal(value as int)),
        Scalar::U16(value) => line == tagged("U16"@, text::decimal(value as nat)),
        Scalar::I16(value) => line == tagged("I16"@, text::signed_decimal(value as int)),
        Scalar::U32(value) => line == tagged("U32"@, text::decimal(value as nat)),
        Scalar::I32(value) => line == tagged("I32"@, text::signed_decimal(value as int)),
        Scalar::F32(bits) => exists|number: String| #[trigger]
            call_ensures(F::single, (floats, bits), number) && line == tagged("F32"@, number@),
        Scalar::Bool(value) => line == tagged(
            "Bool"@,
            if value {
                "true"@
            } else {
                "false"@
            },
        ),
        Scalar::String(value) => line == text_preview(value, full_output),
        Scalar::U64(value) => line == tagged("U64"@, text::decimal(value as nat)),
        Scalar::I64(value) => line == tagged("I64"@, text::signed_decimal(value as int)),
        Scalar::F64(bits) => exists|number: String| #[trigger]
            call_ensures(F::double, (floats, bits), number) && line == tagged("F64"@, number@),
    }
}

fn tag(name: &str, value: &str) -> (text: String)
    ensures
        text@ == tagged(name@, value@),
{
    let mut text = String::new();
    text.append(name);
    text.append("(");
    text.append(value);
    text.append(")");
    assert(text@ =~= tagged(name@, value@));
    text
}

fn tag_number(name: &str, value: u64) -> (text: String)
    ensures
        text@ == tagged(name@, text::decimal(value as nat)),
{
    let mut number = String::new();
    text::push_decimal(&mut number, value);
    assert(number@ =~= text::decimal(value as nat));
    tag(name, number.as_str())
}

fn tag_signed(name: &str, value: i64) -> (text: String)
    ensures
        text@ == tagged(name@, text::signed_decimal(value as int)),
{
    let mut number = String::new();
    text::push_signed(&mut number, value);
    assert(number@ =~= text::signed_decimal(value as int));
    tag(name, number.as_str())
}

/// Quotes and escapes a text, and cuts it off unless all of it is asked for.
fn preview(value: &str, full_output: bool) -> (text: String)
    ensures
        text@ == text_preview(value@, full_output),
{
    if full_output || value.unicode_len() <= DEFAULT_STRING_PREVIEW_CHARS {
        return text::debug_text(value);
    }
    let mut text = text::debug_text(value.substring_char(0, DEFAULT_STRING_PREVIEW_CHARS));
    text.append("...<truncated; ");
    text::push_decimal(&mut text, value.as_bytes().len() as u64);
    text.append(" bytes total>");
    proof {
        let shown = DEFAULT_STRING_PREVIEW_CHARS as int;
        assert(value@.subrange(0, shown) =~= value@.take(shown));
        assert(text@ =~= text_preview(value@, full_output));
    }
    text
}

/// Renders a scalar.
pub fn render_scalar<F: FloatText>(value: ScalarValue<'_>, full_output: bool, floats: &F) -> (text:
    String)
    ensures
        rendered(floats, value@, full_output, text@),
{
    match value {
        ScalarValue::U8(value) => tag_number("U8", value as u64),
        ScalarValue::I8(value) => tag_signed("I8", value as i64),
        ScalarValue::U16(value) => tag_number("U16", value as u64),
        ScalarValue::I16(value) => tag_signed("I16", value as i64),
        ScalarValue::U32(value) => tag_number("U32", value as u64),
        ScalarValue::I32(value) => tag_signed("I32", value as i64),
        ScalarValue::F32(bits) => {
            let number = floats.single(bits);
            tag("F32", number.as_str())
        },
        ScalarValue::Bool(value) => tag(
            "Bool",
            if value {
                "true"
            } else {
                "false"
            },
        ),
        ScalarValue::String(value) => preview(value, full_output),
        ScalarValue::U64(value) => tag_number("U64", value),
        ScalarValue::I64(value) => tag_signed("I64", value),
        ScalarValue::F64(bits) => {
            let number = floats.double(bits);
            tag("F64", number.as_str())
        },
    }
}

/// `line` reports a metadata entry.
pub open spec fn entry_reported<F: FloatText>(
    floats: &F,
    entry: Entry,
    full_output: bool,
    line: Seq<char>,
) -> bool {
    let start = "metadata "@ + text::debug_quoted(entry.key) + " = "@;
    match entry.value {
        Value::Scalar(value) => exists|shown: Seq<char>| #[trigger]
            rendered(floats, value, full_output, shown) && line == start + shown,
        Value::Array { element_type, items } => line == start + "array<"@
            + metadata::declared_name(element_type) + ">["@ + text::decimal(items.len()) + "]"@,
    }
}

/// The line that reports a tensor.
pub open spec fn tensor_line(tensor: Tensor, data_offset: nat) -> Seq<char> {
    "tensor "@ + text::debug_quoted(tensor.name) + " "@ + text::number_list(
        tensor.shape.map_values(|v: u64| v as nat),
    ) + " "@ + types::tensor_type_name(tensor.value_type) + " offset="@ + text::decimal(
        tensor.offset,
    ) + " file_offset="@ + text::decimal(data_offset + tensor.offset) + " bytes="@ + text::decimal(
        tensor.byte_len,
    )
}

/// The lines that report a file as a whole.
pub open spec fn summary_lines(document: Document, size: nat) -> Seq<Seq<char>> {
    seq![
        "file bytes: "@ + text::decimal(size),
        "version: "@ + text::decimal(document.version as nat),
        "alignment: "@ + text::decimal(document.alignment as nat),
        "metadata entries: "@ + text::decimal(document.metadata.len()),
        "tensors: "@ + text::decimal(document.tensors.len()),
        "data offset: "@ + text::decimal(document.data_offset),
    ]
}

/// The texts of some lines.
pub open spec fn line_texts(lines: Seq<String>) -> Seq<Seq<char>> {
    lines.map_values(|line: String| line@)
}

/// `lines` report a file: first the file as a whole, then its metadata, then its
/// tensors.
pub open spec fn reported<F: FloatText>(
    floats: &F,
    document: Document,
    size: nat,
    full_output: bool,
    lines: Seq<Seq<char>>,
) -> bool {
    let entries = document.metadata;
    let tensors = document.tensors;
    &&& lines.len() == 6 + entries.len() + tensors.len()
    &&& lines.take(6) == summary_lines(document, size)
    &&& forall|i: int|
        0 <= i < entries.len() ==> entry_reported(
            floats,
            #[trigger] entries[i],
            full_output,
            lines[6 + i],
        )
    &&& forall|i: int|
        0 <= i < tensors.len() ==> lines[6 + entries.len() + i] == tensor_line(
            #[trigger] tensors[i],
            document.data_offset,
        )
}

fn labelled(label: &str, value: u64) -> (line: String)
    ensures
        line@ == label@ + text::decimal(value as nat),
{
    let mut line = String::new();
    line.append(label);
    text::push_decimal(&mut line, value);
    assert(line@ =~= label@ + text::decimal(value as nat));
    line
}

/// Reports a metadata entry.
fn report_entry<F: FloatText>(entry: &MetadataEntry<'_>, full_output: bool, floats: &F) -> (line:
    String)
    ensures
        entry_reported(floats, entry@, full_output, line@),
{
    let mut line = String::new();
    line.append("metadata ");
    let key = text::debug_text(entry.key);
    line.append(key.as_str());
    line.append(" = ");
    let ghost start = "metadata "@ + text::debug_quoted(entry.key@) + " = "@;
    assert(line@ =~= start);
    match &entry.value {
        MetadataValue::Scalar(value) => {
            let shown = render_scalar(*value, full_output, floats);
            line.append(shown.as_str());
            assert(rendered(floats, value@, full_output, shown@));
            assert(line@ =~= start + shown@);
        },
        MetadataValue::Array(array) => {
            line.append("array<");
            line.append(metadata::name_type(array.element_type()));
            line.append(">[");
            text::push_decimal(&mut line, array.len() as u64);
            line.append("]");
            assert(line@ =~= start + "array<"@ + metadata::declared_name(
                array.spec_element_type(),
            ) + ">["@ + text::decimal(array@.len()) + "]"@);
        },
    }
    line
}

/// Reports a tensor.
fn report_tensor(tensor: &TensorInfo<'_>, file_offset: usize) -> (line: String)
    requires
        tensor.well_formed(),
        file_offset >= tensor@.offset,
    ensures
        line@ == tensor_line(tensor@, (file_offset - tensor@.offset) as nat),
{
    let mut line = String::new();
    line.append("tensor ");
    let name = text::debug_text(tensor.name);
    line.append(name.as_str());
    line.append(" ");
    text::push_long_list(&mut line, tensor.shape());
    line.append(" ");
    line.append(tensor.value_type.name());
    line.append(" offset=");
    text::push_decimal(&mut line, tensor.offset);
    line.append(" file_offset=");
    text::push_decimal(&mut line, file_offset as u64);
    line.append(" bytes=");
    text::push_decimal(&mut line, tensor.byte_len);
    assert(line@ =~= tensor_line(tensor@, (file_offset - tensor@.offset) as nat));
    line
}

/// Parses a file and reports what it holds, line by line.
pub fn inspect<F: FloatText>(bytes: &[u8], full_output: bool, floats: &F) -> (result: Result<
    Vec<String>,
    Error,
>)
    ensures
        match grammar::document(index::model_rules(), bytes@) {
            Err(failure) => result matches Err(error) && error@ == failure,
            Ok(document) => result matches Ok(lines) && reported(
                floats,
                document,
                bytes@.len(),
                full_output,
                line_texts(lines@),
            ),
        },
{
    let file = match Gguf::from_bytes(bytes) {
        Ok(file) => file,
        Err(error) => {
            return Err(error);
        },
    };
    let mut lines: Vec<String> = Vec::new();
    lines.push(labelled("file bytes: ", bytes.len() as u64));
    lines.push(labelled("version: ", file.version() as u64));
    lines.push(labelled("alignment: ", file.alignment() as u64));
    let entries = file.metadata();
    let tensors = file.tensors();
    assert(entries@.len() == file@.metadata.len());
    assert(tensors@.len() == file@.tensors.len());
    lines.push(labelled("metadata entries: ", entries.len() as u64));
    lines.push(labelled("tensors: ", tensors.len() as u64));
    lines.push(labelled("data offset: ", file.data_offset() as u64));
    let ghost summary = summary_lines(file@, bytes@.len());
    assert(line_texts(lines@).take(6) =~= summary);
    let mut i: usize = 0;
    while i < entries.len()
        invariant
            i <= entries@.len(),
            entries@.map_values(|entry: MetadataEntry| entry@) == file@.metadata,
            entries@.len() == file@.metadata.len(),
            lines@.len() == 6 + i,
            line_texts(lines@).take(6) == summary,
            forall|k: int|
                0 <= k < i ==> entry_reported(
                    floats,
                    #[trigger] file@.metadata[k],
                    full_output,
                    lines@[6 + k]@,
                ),
        decreases entries@.len() - i,
    {
        let ghost before = lines@;
        assert(file@.metadata[i as int] == entries@[i as int]@);
        lines.push(report_entry(&entries[i], full_output, floats));
        proof {
            assert(line_texts(lines@).take(6) =~= line_texts(before).take(6));
        }
        i += 1;
    }
    let ghost count = entries@.len();
    let mut k: usize = 0;
    while k < tensors.len()
        invariant
            k <= tensors@.len(),
            tensors@.map_values(|tensor: TensorInfo| tensor@) == file@.tensors,
            tensors@.len() == file@.tensors.len(),
            forall|j: int| 0 <= j < tensors@.len() ==> (#[trigger] tensors@[j]).well_formed(),
            grammar::document(index::model_rules(), bytes@) matches Ok(document) && document
                == file@,
            count == file@.metadata.len(),
            lines@.len() == 6 + count + k,
            line_texts(lines@).take(6) == summary,
            forall|j: int|
                0 <= j < count ==> entry_reported(
                    floats,
                    #[trigger] file@.metadata[j],
                    full_output,
                    lines@[6 + j]@,
                ),
            forall|j: int|
                0 <= j < k ==> lines@[6 + count + j]@ == tensor_line(
                    #[trigger] file@.tensors[j],
                    file@.data_offset,
                ),
        decreases tensors@.len() - k,
    {
        let ghost before = lines@;
        proof {
            assert(file@.tensors[k as int] == tensors@[k as int]@);
            assert(tensors@[k as int].well_formed());
            gguf_laws::law_tensor_data_present(index::model_rules(), bytes@, k as int);
        }
        if let Some(range) = file.tensor_data_range(k) {
            lines.push(report_tensor(&tensors[k], range.start));
        }
        proof {
            assert(line_texts(lines@).take(6) =~= line_texts(before).take(6));
        }
        k += 1;
    }
    proof {
        let texts = line_texts(lines@);
        assert forall|j: int| 0 <= j < count implies entry_reported(
            floats,
            #[trigger] file@.metadata[j],
            full_output,
            texts[6 + j],
        ) by {
            assert(texts[6 + j] == lines@[6 + j]@);
        }
        assert forall|j: int| 0 <= j < file@.tensors.len() implies texts[6 + count + j]
            == tensor_line(#[trigger] file@.tensors[j], file@.data_offset) by {
            assert(texts[6 + count + j] == lines@[6 + count + j]@);
        }
    }
    Ok(lines)
}

} // verus!
