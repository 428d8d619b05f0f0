//! Errors reported while a GGUF file is parsed or read.

use vstd::prelude::*;
use vstd::string::*;

use crate::text;

verus! {

/// A malformed or unsupported GGUF file, with the byte offset at which parsing
/// stopped.
#[derive(Debug, Clone, PartialEq, Eq)]
pub struct Error {
    pub offset: usize,
    pub kind: ErrorKind,
}

/// What is wrong with a file.
#[derive(Debug, Clone, PartialEq, Eq)]
pub enum ErrorKind {
    UnexpectedEof { needed: usize, remaining: usize },
    InvalidMagic([u8; 4]),
    UnsupportedVersion(u32),
    EndiannessMismatch(u32),
    LimitExceeded { field: &'static str, value: u64, limit: u64 },
    IntegerOverflow(&'static str),
    /// Storage could not be reserved. The parser itself reserves none in advance:
    /// its tables grow as they are read. Readers report it of the bytes that they
    /// are asked for.
    AllocationFailed(&'static str),
    InvalidUtf8(&'static str),
    EmptyMetadataKey,
    MetadataKeyTooLong(usize),
    InvalidMetadataKey,
    DuplicateMetadataKey(String),
    InvalidMetadataType(u32),
    NestedMetadataArray,
    InvalidBoolean(u8),
    InvalidAlignment(u32),
    DuplicateTensorName(String),
    TensorNameTooLong(usize),
    TensorNameContainsNul,
    TooManyDimensions(u32),
    InvalidDimension(u64),
    InvalidTensorType(u32),
    MisalignedTensorOffset { offset: u64, alignment: u32 },
    TensorRowNotDivisible { elements_per_row: u64, block_size: u64 },
    UnexpectedTensorOffset { expected: u64, actual: u64 },
    TensorDataTruncated { expected: u64, actual: u64 },
}

/// What is wrong with a file, as a mathematical value.
#[verifier::ext_equal]
pub enum Fault {
    UnexpectedEof { needed: nat, remaining: nat },
    InvalidMagic(Seq<u8>),
    UnsupportedVersion(u32),
    EndiannessMismatch(u32),
    LimitExceeded { field: Seq<char>, value: nat, limit: nat },
    IntegerOverflow(Seq<char>),
    AllocationFailed(Seq<char>),
    InvalidUtf8(Seq<char>),
    EmptyMetadataKey,
    MetadataKeyTooLong(nat),
    InvalidMetadataKey,
    DuplicateMetadataKey(Seq<char>),
    InvalidMetadataType(u32),
    NestedMetadataArray,
    InvalidBoolean(u8),
    InvalidAlignment(u32),
    DuplicateTensorName(Seq<char>),
    TensorNameTooLong(nat),
    TensorNameContainsNul,
    TooManyDimensions(u32),
    InvalidDimension(u64),
    InvalidTensorType(u32),
    MisalignedTensorOffset { offset: nat, alignment: nat },
    TensorRowNotDivisible { elements_per_row: nat, block_size: nat },
    UnexpectedTensorOffset { expected: nat, actual: nat },
    TensorDataTruncated { expected: nat, actual: nat },
}

/// A fault and the byte offset at which it was noticed.
#[verifier::ext_equal]
pub struct Failure {
    pub offset: nat,
    pub fault: Fault,
}

impl View for ErrorKind {
    type V = Fault;

    open spec fn view(&self) -> Fault {
        match *self {
            ErrorKind::UnexpectedEof { needed, remaining } => Fault::UnexpectedEof {
                needed: needed as nat,
                remaining: remaining as nat,
            },
            ErrorKind::InvalidMagic(magic) => Fault::InvalidMagic(magic@),
            ErrorKind::UnsupportedVersion(version) => Fault::UnsupportedVersion(version),
            ErrorKind::EndiannessMismatch(version) => Fault::EndiannessMismatch(version),
            ErrorKind::LimitExceeded { field, value, limit } => Fault::LimitExceeded {
                field: field@,
                value: value as nat,
                limit: limit as nat,
            },
            ErrorKind::IntegerOverflow(field) => Fault::IntegerOverflow(field@),
            ErrorKind::AllocationFailed(field) => Fault::AllocationFailed(field@),
            ErrorKind::InvalidUtf8(field) => Fault::InvalidUtf8(field@),
            ErrorKind::EmptyMetadataKey => Fault::EmptyMetadataKey,
            ErrorKind::MetadataKeyTooLong(length) => Fault::MetadataKeyTooLong(length as nat),
            ErrorKind::InvalidMetadataKey => Fault::InvalidMetadataKey,
            ErrorKind::DuplicateMetadataKey(key) => Fault::DuplicateMetadataKey(key@),
            ErrorKind::InvalidMetadataType(code) => Fault::InvalidMetadataType(code),
            ErrorKind::NestedMetadataArray => Fault::NestedMetadataArray,
            ErrorKind::InvalidBoolean(value) => Fault::InvalidBoolean(value),
            ErrorKind::InvalidAlignment(alignment) => Fault::InvalidAlignment(alignment),
            ErrorKind::DuplicateTensorName(name) => Fault::DuplicateTensorName(name@),
            ErrorKind::TensorNameTooLong(length) => Fault::TensorNameTooLong(length as nat),
            ErrorKind::TensorNameContainsNul => Fault::TensorNameContainsNul,
            ErrorKind::TooManyDimensions(count) => Fault::TooManyDimensions(count),
            ErrorKind::InvalidDimension(value) => Fault::InvalidDimension(value),
            ErrorKind::InvalidTensorType(code) => Fault::InvalidTensorType(code),
            ErrorKind::MisalignedTensorOffset { offset, alignment } => {
                Fault::MisalignedTensorOffset { offset: offset as nat, alignment: alignment as nat }
            },
            ErrorKind::TensorRowNotDivisible { elements_per_row, block_size } => {
                Fault::TensorRowNotDivisible {
                    elements_per_row: elements_per_row as nat,
                    block_size: block_size as nat,
                }
            },
            ErrorKind::UnexpectedTensorOffset { expected, actual } => {
                Fault::UnexpectedTensorOffset { expected: expected as nat, actual: actual as nat }
            },
            ErrorKind::TensorDataTruncated { expected, actual } => {
                Fault::TensorDataTruncated { expected: expected as nat, actual: actual as nat }
            },
        }
    }
}

impl View for Error {
    type V = Failure;

    open spec fn view(&self) -> Failure {
        Failure { offset: self.offset as nat, fault: self.kind@ }
    }
}

/// The text that describes a fault.
pub open spec fn fault_text(fault: Fault) -> Seq<char> {
    match fault {
        Fault::UnexpectedEof { needed, remaining } => "needed "@ + text::decimal(needed)
            + " bytes but only "@ + text::decimal(remaining) + " remain"@,
        Fault::InvalidMagic(magic) => "invalid magic "@ + text::number_list(
            magic.map_values(|b: u8| b as nat),
        ),
        Fault::UnsupportedVersion(version) => "unsupported version "@ + text::decimal(version as nat),
        Fault::EndiannessMismatch(version) => "version 0x"@ + text::hexadecimal(version as nat, 8)
            + " indicates an endianness mismatch"@,
        Fault::LimitExceeded { field, value, limit } => field + " value "@ + text::decimal(value)
            + " exceeds limit "@ + text::decimal(limit),
        Fault::IntegerOverflow(field) => field + " overflows the host integer range"@,
        Fault::AllocationFailed(field) => "could not allocate storage for "@ + field,
        Fault::InvalidUtf8(field) => field + " is not valid UTF-8"@,
        Fault::EmptyMetadataKey => "metadata key is empty"@,
        Fault::MetadataKeyTooLong(length) => "metadata key length "@ + text::decimal(length)
            + " exceeds the 65535-byte limit"@,
        Fault::InvalidMetadataKey =>
            "metadata key must contain non-empty lower-case ASCII, digit, or underscore segments separated by periods"@,
        Fault::DuplicateMetadataKey(key) => "duplicate metadata key "@ + text::debug_quoted(key),
        Fault::InvalidMetadataType(code) => "invalid metadata type "@ + text::decimal(code as nat),
        Fault::NestedMetadataArray => "nested metadata arrays are not supported by ggml"@,
        Fault::InvalidBoolean(value) => "invalid boolean byte "@ + text::decimal(value as nat),
        Fault::InvalidAlignment(alignment) => "alignment "@ + text::decimal(alignment as nat)
            + " is not a nonzero power of two"@,
        Fault::DuplicateTensorName(name) => "duplicate tensor name "@ + text::debug_quoted(name),
        Fault::TensorNameTooLong(length) => "tensor name length "@ + text::decimal(length)
            + " exceeds the 63-byte limit"@,
        Fault::TensorNameContainsNul => "tensor name contains an interior NUL byte"@,
        Fault::TooManyDimensions(count) => "tensor has "@ + text::decimal(count as nat)
            + " dimensions, maximum is 4"@,
        Fault::InvalidDimension(value) => "tensor dimension "@ + text::decimal(value as nat)
            + " exceeds i64::MAX"@,
        Fault::InvalidTensorType(code) => "invalid tensor type "@ + text::decimal(code as nat),
        Fault::MisalignedTensorOffset { offset, alignment } => "tensor offset "@ + text::decimal(offset)
            + " is not aligned to "@ + text::decimal(alignment) + " bytes"@,
        Fault::TensorRowNotDivisible { elements_per_row, block_size } => "tensor row has "@
            + text::decimal(elements_per_row) + " elements, not a multiple of block size "@ + text::decimal(
            block_size,
        ),
        Fault::UnexpectedTensorOffset { expected, actual } => "tensor offset "@ + text::decimal(actual)
            + " does not match expected offset "@ + text::decimal(expected),
        Fault::TensorDataTruncated { expected, actual } => "tensor data section needs "@ + text::decimal(
            expected,
        ) + " bytes but only "@ + text::decimal(actual) + " are present"@,
    }
}

/// The text that describes a failure.
pub open spec fn failure_text(failure: Failure) -> Seq<char> {
    "GGUF parse error at byte "@ + text::decimal(failure.offset) + ": "@ + fault_text(failure.fault)
}

/// Appends a label, a number and a trailing text.
fn push_numbered(out: &mut String, before: &str, value: u64, after: &str)
    ensures
        final(out)@ == old(out)@ + (before@ + text::decimal(value as nat) + after@),
{
    let ghost start = out@;
    out.append(before);
    text::push_decimal(out, value);
    out.append(after);
    assert(out@ =~= start + (before@ + text::decimal(value as nat) + after@));
}

impl ErrorKind {
    /// Appends the description of this error to `out`.
    fn describe(&self, out: &mut String)
        ensures
            final(out)@ == old(out)@ + fault_text(self@),
    {
        let ghost start = out@;
        proof {
            reveal_strlit("");
        }
        match self {
            ErrorKind::UnexpectedEof { needed, remaining } => {
                push_numbered(out, "needed ", *needed as u64, " bytes but only ");
                push_numbered(out, "", *remaining as u64, " remain");
            },
            ErrorKind::InvalidMagic(magic) => {
                let mut bytes: Vec<usize> = Vec::new();
                let mut i: usize = 0;
                while i < 4
                    invariant
                        i <= 4,
                        bytes@.len() == i,
                        forall|j: int| 0 <= j < i ==> bytes@[j] == magic@[j],
                    decreases 4 - i,
                {
                    bytes.push(magic[i] as usize);
                    i += 1;
                }
                out.append("invalid magic ");
                text::push_number_list(out, bytes.as_slice());
                assert(bytes@.map_values(|v: usize| v as nat) =~= magic@.map_values(
                    |b: u8| b as nat,
                ));
            },
            ErrorKind::UnsupportedVersion(version) => {
                push_numbered(out, "unsupported version ", *version as u64, "");
            },
            ErrorKind::EndiannessMismatch(version) => {
                out.append("version 0x");
                text::push_hexadecimal(out, *version as u64, 8);
                out.append(" indicates an endianness mismatch");
            },
            ErrorKind::LimitExceeded { field, value, limit } => {
                out.append(field);
                push_numbered(out, " value ", *value, " exceeds limit ");
                text::push_decimal(out, *limit);
            },
            ErrorKind::IntegerOverflow(field) => {
                out.append(field);
                out.append(" overflows the host integer range");
            },
            ErrorKind::AllocationFailed(field) => {
                out.append("could not allocate storage for ");
                out.append(field);
            },
            ErrorKind::InvalidUtf8(field) => {
                out.append(field);
                out.append(" is not valid UTF-8");
            },
            ErrorKind::EmptyMetadataKey => {
                out.append("metadata key is empty");
            },
            ErrorKind::MetadataKeyTooLong(length) => {
                push_numbered(
                    out,
                    "metadata key length ",
                    *length as u64,
                    " exceeds the 65535-byte limit",
                );
            },
            ErrorKind::InvalidMetadataKey => {
                out.append(
                    "metadata key must contain non-empty lower-case ASCII, digit, or underscore segments separated by periods",
                );
            },
            ErrorKind::DuplicateMetadataKey(key) => {
                out.append("duplicate metadata key ");
                out.append(text::debug_text(key.as_str()).as_str());
            },
            ErrorKind::InvalidMetadataType(code) => {
                push_numbered(out, "invalid metadata type ", *code as u64, "");
            },
            ErrorKind::NestedMetadataArray => {
                out.append("nested metadata arrays are not supported by ggml");
            },
            ErrorKind::InvalidBoolean(value) => {
                push_numbered(out, "invalid boolean byte ", *value as u64, "");
            },
            ErrorKind::InvalidAlignment(alignment) => {
                push_numbered(
                    out,
                    "alignment ",
                    *alignment as u64,
                    " is not a nonzero power of two",
                );
            },
            ErrorKind::DuplicateTensorName(name) => {
                out.append("duplicate tensor name ");
                out.append(text::debug_text(name.as_str()).as_str());
            },
            ErrorKind::TensorNameTooLong(length) => {
                push_numbered(
                    out,
                    "tensor name length ",
                    *length as u64,
                    " exceeds the 63-byte limit",
                );
            },
            ErrorKind::TensorNameContainsNul => {
                out.append("tensor name contains an interior NUL byte");
            },
            ErrorKind::TooManyDimensions(count) => {
                push_numbered(out, "tensor has ", *count as u64, " dimensions, maximum is 4");
            },
            ErrorKind::InvalidDimension(value) => {
                push_numbered(out, "tensor dimension ", *value, " exceeds i64::MAX");
            },
            ErrorKind::InvalidTensorType(code) => {
                push_numbered(out, "invalid tensor type ", *code as u64, "");
            },
            ErrorKind::MisalignedTensorOffset { offset, alignment } => {
                push_numbered(out, "tensor offset ", *offset, " is not aligned to ");
                push_numbered(out, "", *alignment as u64, " bytes");
            },
            ErrorKind::TensorRowNotDivisible { elements_per_row, block_size } => {
                push_numbered(
                    out,
                    "tensor row has ",
                    *elements_per_row,
                    " elements, not a multiple of block size ",
                );
                text::push_decimal(out, *block_size);
            },
            ErrorKind::UnexpectedTensorOffset { expected, actual } => {
                push_numbered(out, "tensor offset ", *actual, " does not match expected offset ");
                text::push_decimal(out, *expected);
            },
            ErrorKind::TensorDataTruncated { expected, actual } => {
                push_numbered(out, "tensor data section needs ", *expected, " bytes but only ");
                push_numbered(out, "", *actual, " are present");
            },
        }
        assert(out@ =~= start + fault_text(self@));
    }
}

impl Error {
    pub(crate) fn new(offset: usize, kind: ErrorKind) -> (error: Self)
        ensures
            error.offset == offset,
            error.kind == kind,
    {
        Error { offset, kind }
    }

    /// Describes this error in one sentence.
    pub fn message(&self) -> (text: String)
        ensures
            text@ == failure_text(self@),
    {
        let mut text = String::new();
        push_numbered(&mut text, "GGUF parse error at byte ", self.offset as u64, ": ");
        self.kind.describe(&mut text);
        assert(text@ =~= failure_text(self@));
        text
    }
}

/// The error type of the standard library's input and output.
#[verifier::external_type_specification]
#[verifier::external_body]
pub struct ExIoError(std::io::Error);

/// Failure to validate a file that is read piece by piece.
#[derive(Debug)]
pub enum ReadError {
    /// The underlying reader failed during a named operation.
    Io { operation: &'static str, offset: Option<u64>, source: std::io::Error },
    /// The GGUF structure or declared ranges are invalid.
    Parse(Error),
    /// The reader's reported file length changed during validation.
    FileLengthChanged { expected: u64, actual: u64 },
}

/// Renders an input or output error.
///
/// Calls the `Display` formatting of `std::io::Error`. Nothing is claimed of
/// the text, which depends on the operating system.
#[verifier::external_body]
pub(crate) fn io_error_text(error: &std::io::Error) -> (text: String) {
    format!("{}", error)
}

/// The text of a read error whose source renders as `source`.
pub open spec fn read_error_text(error: ReadError, source: Seq<char>) -> Seq<char> {
    match error {
        ReadError::Io { operation, offset: Some(offset), .. } => "GGUF I/O error while "@
            + operation@ + " at byte "@ + text::decimal(offset as nat) + ": "@ + source,
        ReadError::Io { operation, offset: None, .. } => "GGUF I/O error while "@ + operation@
            + ": "@ + source,
        ReadError::Parse(error) => failure_text(error@),
        ReadError::FileLengthChanged { expected, actual } =>
            "GGUF file length changed while reading: expected "@ + text::decimal(expected as nat)
            + " bytes, found "@ + text::decimal(actual as nat),
    }
}

impl ReadError {
    pub(crate) fn io(
        operation: &'static str,
        offset: Option<u64>,
        source: std::io::Error,
    ) -> (error: Self)
        ensures
            error == (ReadError::Io { operation, offset, source }),
    {
        ReadError::Io { operation, offset, source }
    }

    /// Describes this error in one sentence.
    pub fn message(&self) -> (text: String)
        ensures
            self is Io ==> exists|source: Seq<char>| text@ == read_error_text(*self, source),
            !(self is Io) ==> text@ == read_error_text(*self, seq![]),
    {
        let source = match self {
            ReadError::Io { source, .. } => io_error_text(source),
            _ => String::new(),
        };
        self.message_with_source(source.as_str())
    }

    /// Describes this error in one sentence, given the text of its source.
    pub fn message_with_source(&self, source: &str) -> (text: String)
        ensures
            text@ == read_error_text(*self, source@),
    {
        let mut text = String::new();
        match self {
            ReadError::Io { operation, offset, .. } => {
                text.append("GGUF I/O error while ");
                text.append(operation);
                if let Some(offset) = offset {
                    text.append(" at byte ");
                    text::push_decimal(&mut text, *offset);
                }
                text.append(": ");
                text.append(source);
                assert(text@ =~= read_error_text(*self, source@));
                text
            },
            ReadError::Parse(error) => error.message(),
            ReadError::FileLengthChanged { expected, actual } => {
                text.append("GGUF file length changed while reading: expected ");
                text::push_decimal(&mut text, *expected);
                text.append(" bytes, found ");
                text::push_decimal(&mut text, *actual);
                assert(text@ =~= read_error_text(*self, source@));
                text
            },
        }
    }
}

impl vstd::std_specs::convert::FromSpecImpl<Error> for ReadError {
    open spec fn obeys_from_spec() -> bool {
        true
    }

    open spec fn from_spec(error: Error) -> Self {
        ReadError::Parse(error)
    }
}

impl From<Error> for ReadError {
    fn from(error: Error) -> (wrapped: Self) {
        ReadError::Parse(error)
    }
}

} // verus!
