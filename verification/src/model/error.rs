//! Errors of model indexing and tensor materialization.

use vstd::prelude::*;
use vstd::string::*;

use crate::gguf::types;
use crate::gguf::types::TensorType;
use crate::text;

verus! {

/// Errors returned by GGUF model indexing and tensor materialization.
#[derive(Debug)]
pub enum ModelError {
    InvalidLimit,
    Io(String),
    Parse(String),
    TensorNotFound(String),
    UnsupportedTensorType { name: String, value_type: TensorType },
    Shape(String),
    ContentChanged,
    InvalidUtf8Metadata(&'static str),
    MetadataArray(String),
    MetadataArrayType { key: String, expected: &'static str, actual: String },
    MetadataArrayLimit { key: String, len: usize, max: u64 },
}

/// An error, as a mathematical value.
#[verifier::ext_equal]
pub enum ModelFault {
    InvalidLimit,
    Io(Seq<char>),
    Parse(Seq<char>),
    TensorNotFound(Seq<char>),
    UnsupportedTensorType { name: Seq<char>, value_type: u32 },
    Shape(Seq<char>),
    ContentChanged,
    InvalidUtf8Metadata(Seq<char>),
    MetadataArray(Seq<char>),
    MetadataArrayType { key: Seq<char>, expected: Seq<char>, actual: Seq<char> },
    MetadataArrayLimit { key: Seq<char>, len: nat, max: nat },
}

impl View for ModelError {
    type V = ModelFault;

    open spec fn view(&self) -> ModelFault {
        match *self {
            ModelError::InvalidLimit => ModelFault::InvalidLimit,
            ModelError::Io(error) => ModelFault::Io(error@),
            ModelError::Parse(error) => ModelFault::Parse(error@),
            ModelError::TensorNotFound(name) => ModelFault::TensorNotFound(name@),
            ModelError::UnsupportedTensorType {
                name,
                value_type,
            } => ModelFault::UnsupportedTensorType { name: name@, value_type: value_type.code() },
            ModelError::Shape(error) => ModelFault::Shape(error@),
            ModelError::ContentChanged => ModelFault::ContentChanged,
            ModelError::InvalidUtf8Metadata(key) => ModelFault::InvalidUtf8Metadata(key@),
            ModelError::MetadataArray(key) => ModelFault::MetadataArray(key@),
            ModelError::MetadataArrayType {
                key,
                expected,
                actual,
            } => ModelFault::MetadataArrayType { key: key@, expected: expected@, actual: actual@ },
            ModelError::MetadataArrayLimit { key, len, max } => ModelFault::MetadataArrayLimit {
                key: key@,
                len: len as nat,
                max: max as nat,
            },
        }
    }
}

/// The text that describes an error.
pub open spec fn model_fault_text(fault: ModelFault) -> Seq<char> {
    match fault {
        ModelFault::InvalidLimit => "model mapping limit must be greater than zero"@,
        ModelFault::Io(error) => "could not read GGUF model: "@ + error,
        ModelFault::Parse(error) => "GGUF model is invalid: "@ + error,
        ModelFault::TensorNotFound(name) => "GGUF tensor not found: "@ + name,
        ModelFault::UnsupportedTensorType { name, value_type } => "tensor "@ + name
            + " uses unsupported storage type "@ + types::tensor_type_name(value_type),
        ModelFault::Shape(error) => "GGUF tensor shape is invalid: "@ + error,
        ModelFault::ContentChanged => "GGUF model bytes changed after the model was opened"@,
        ModelFault::InvalidUtf8Metadata(key) => "GGUF metadata "@ + key
            + " is not a UTF-8 string"@,
        ModelFault::MetadataArray(key) => "GGUF metadata "@ + key + " is an array, not a scalar"@,
        ModelFault::MetadataArrayType { key, expected, actual } => "GGUF metadata "@ + key
            + " array has element type "@ + actual + ", expected "@ + expected,
        ModelFault::MetadataArrayLimit { key, len, max } => "GGUF metadata "@ + key
            + " array has "@ + text::decimal(len) + " elements, exceeding limit "@ + text::decimal(
            max,
        ),
    }
}

impl ModelError {
    /// Describes the error.
    pub fn message(&self) -> (text: String)
        ensures
            text@ == model_fault_text(self@),
    {
        let mut text = String::new();
        match self {
            ModelError::InvalidLimit => text.append("model mapping limit must be greater than zero"),
            ModelError::Io(error) => {
                text.append("could not read GGUF model: ");
                text.append(error.as_str());
            },
            ModelError::Parse(error) => {
                text.append("GGUF model is invalid: ");
                text.append(error.as_str());
            },
            ModelError::TensorNotFound(name) => {
                text.append("GGUF tensor not found: ");
                text.append(name.as_str());
            },
            ModelError::UnsupportedTensorType { name, value_type } => {
                text.append("tensor ");
                text.append(name.as_str());
                text.append(" uses unsupported storage type ");
                text.append(value_type.name());
            },
            ModelError::Shape(error) => {
                text.append("GGUF tensor shape is invalid: ");
                text.append(error.as_str());
            },
            ModelError::ContentChanged => text.append(
                "GGUF model bytes changed after the model was opened",
            ),
            ModelError::InvalidUtf8Metadata(key) => {
                text.append("GGUF metadata ");
                text.append(key);
                text.append(" is not a UTF-8 string");
            },
            ModelError::MetadataArray(key) => {
                text.append("GGUF metadata ");
                text.append(key.as_str());
                text.append(" is an array, not a scalar");
            },
            ModelError::MetadataArrayType { key, expected, actual } => {
                text.append("GGUF metadata ");
                text.append(key.as_str());
                text.append(" array has element type ");
                text.append(actual.as_str());
                text.append(", expected ");
                text.append(expected);
            },
            ModelError::MetadataArrayLimit { key, len, max } => {
                text.append("GGUF metadata ");
                text.append(key.as_str());
                text.append(" array has ");
                text::push_decimal(&mut text, *len as u64);
                text.append(" elements, exceeding limit ");
                text::push_decimal(&mut text, *max);
            },
        }
        assert(text@ =~= model_fault_text(self@));
        text
    }
}

/// A shape that does not fit, for a fixed reason.
pub(crate) fn shape_error(reason: &str) -> (error: ModelError)
    ensures
        error@ == ModelFault::Shape(reason@),
{
    ModelError::Shape(text::owned(reason))
}

/// A shape that does not fit, for a reason that names a number.
pub(crate) fn counted_shape_error(before: &str, count: u64, after: &str) -> (error: ModelError)
    ensures
        error@ == ModelFault::Shape(before@ + text::decimal(count as nat) + after@),
{
    let mut reason = String::new();
    reason.append(before);
    text::push_decimal(&mut reason, count);
    reason.append(after);
    assert(reason@ =~= before@ + text::decimal(count as nat) + after@);
    ModelError::Shape(reason)
}

/// A shape that does not fit, for a reason that names two numbers.
pub(crate) fn compared_shape_error(
    before: &str,
    actual: u64,
    between: &str,
    expected: u64,
    after: &str,
) -> (error: ModelError)
    ensures
        error@ == ModelFault::Shape(
            before@ + text::decimal(actual as nat) + between@ + text::decimal(expected as nat)
                + after@,
        ),
{
    let mut reason = String::new();
    reason.append(before);
    text::push_decimal(&mut reason, actual);
    reason.append(between);
    text::push_decimal(&mut reason, expected);
    reason.append(after);
    assert(reason@ =~= before@ + text::decimal(actual as nat) + between@ + text::decimal(
        expected as nat,
    ) + after@);
    ModelError::Shape(reason)
}

/// A shape that does not fit, for a reason that names the shape.
pub(crate) fn listed_shape_error(before: &str, shape: &[usize]) -> (error: ModelError)
    ensures
        error@ == ModelFault::Shape(
            before@ + text::number_list(shape@.map_values(|v: usize| v as nat)),
        ),
{
    let mut reason = String::new();
    reason.append(before);
    text::push_number_list(&mut reason, shape);
    assert(reason@ =~= before@ + text::number_list(shape@.map_values(|v: usize| v as nat)));
    ModelError::Shape(reason)
}

} // verus!
