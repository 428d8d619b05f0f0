//! What messages say: each value stands behind the words that introduce it.

use vstd::prelude::*;

use crate::gguf::error as gguf_error;
use crate::gguf::error::{Error, Fault, ReadError};
use crate::graph::error::{GraphError, GraphFault};
use crate::mapping::MapError;
use crate::memory::model::Refusal;
use crate::memory::types::MemoryError;
use crate::model::error::{ModelError, ModelFault};
use crate::tensor::error as tensor_error;
use crate::tensor::error::{TensorError, TensorFault};
use crate::text;

verus! {

/// A label and an item, with what stands before and behind them.
pub open spec fn joined(
    front: Seq<char>,
    label: Seq<char>,
    item: Seq<char>,
    back: Seq<char>,
) -> Seq<char> {
    front + label + item + back
}

/// An item stands behind its label in a text.
pub open spec fn says(text: Seq<char>, label: Seq<char>, item: Seq<char>) -> bool {
    exists|front: Seq<char>, back: Seq<char>| text == #[trigger] joined(front, label, item, back)
}

proof fn lemma_two(
    text: Seq<char>,
    front: Seq<char>,
    first: Seq<char>,
    a: Seq<char>,
    second: Seq<char>,
    b: Seq<char>,
    back: Seq<char>,
)
    requires
        text == front + (first + a + (second + b + back)),
    ensures
        says(text, first, a),
        says(text, second, b),
{
    assert(text =~= joined(front, first, a, second + b + back));
    assert(text =~= joined(front + first + a, second, b, back));
}

/// The text of a shape: its dimensions in order.
pub open spec fn dimensions(shape: Seq<usize>) -> Seq<char> {
    text::number_list(shape.map_values(|dimension: usize| dimension as nat))
}

/// Messages about tensors state what is there and what is expected, and the shapes
/// from left to right.
pub proof fn law_tensor_messages(error: &TensorError, message: String)
    requires
        call_ensures(TensorError::message, (error,), message),
    ensures
        error@ matches TensorFault::DataLength { expected, actual } ==> says(
            message@,
            "tensor data contains "@,
            text::decimal(actual),
        ) && says(message@, " values, expected "@, text::decimal(expected)),
        error@ matches TensorFault::RankMismatch { expected, actual } ==> says(
            message@,
            "tensor rank is "@,
            text::decimal(actual),
        ) && says(message@, ", expected "@, text::decimal(expected)),
        error@ matches TensorFault::ShapeMismatch { left, right } ==> says(
            message@,
            "tensor shapes differ: "@,
            dimensions(left),
        ) && says(message@, " and "@, dimensions(right)),
        error@ matches TensorFault::MatrixShapeMismatch { left, right } ==> says(
            message@,
            "matrix shapes cannot be multiplied: "@,
            dimensions(left),
        ) && says(message@, " and "@, dimensions(right)),
        error@ matches TensorFault::AttentionShapeMismatch { queries, keys, values } ==> says(
            message@,
            ": queries "@,
            dimensions(queries),
        ) && says(message@, ", keys "@, dimensions(keys)) && says(
            message@,
            ", values "@,
            dimensions(values),
        ),
        error@ matches TensorFault::NonFiniteOutput { operation, index } ==> says(
            message@,
            "tensor operation "@,
            operation,
        ) && says(message@, " produced a non-finite value at index "@, text::decimal(index)),
        error@ matches TensorFault::NonFiniteInput { index } ==> says(
            message@,
            "tensor input at index "@,
            text::decimal(index),
        ),
{
    let whole = message@;
    let none = Seq::<char>::empty();
    match error@ {
        TensorFault::DataLength { expected, actual } => {
            let a = text::decimal(actual);
            let b = text::decimal(expected);
            assert(whole =~= none + ("tensor data contains "@ + a + (" values, expected "@ + b
                + none)));
            lemma_two(whole, none, "tensor data contains "@, a, " values, expected "@, b, none);
        },
        TensorFault::RankMismatch { expected, actual } => {
            let a = text::decimal(actual);
            let b = text::decimal(expected);
            assert(whole =~= none + ("tensor rank is "@ + a + (", expected "@ + b + none)));
            lemma_two(whole, none, "tensor rank is "@, a, ", expected "@, b, none);
        },
        TensorFault::ShapeMismatch { left, right } => {
            let a = dimensions(left);
            let b = dimensions(right);
            assert(whole =~= none + ("tensor shapes differ: "@ + a + (" and "@ + b + none)));
            lemma_two(whole, none, "tensor shapes differ: "@, a, " and "@, b, none);
        },
        TensorFault::MatrixShapeMismatch { left, right } => {
            let a = dimensions(left);
            let b = dimensions(right);
            assert(whole =~= none + ("matrix shapes cannot be multiplied: "@ + a + (" and "@ + b
                + none)));
            lemma_two(whole, none, "matrix shapes cannot be multiplied: "@, a, " and "@, b, none);
        },
        TensorFault::AttentionShapeMismatch { queries, keys, values } => {
            let a = dimensions(queries);
            let b = dimensions(keys);
            let c = dimensions(values);
            let front = "attention shapes are incompatible"@;
            assert("attention shapes are incompatible: queries "@ =~= front + ": queries "@) by {
                reveal_strlit("attention shapes are incompatible: queries ");
                reveal_strlit("attention shapes are incompatible");
                reveal_strlit(": queries ");
            }
            let rest = ", values "@ + c;
            assert(whole =~= front + (": queries "@ + a + (", keys "@ + b + rest)));
            lemma_two(whole, front, ": queries "@, a, ", keys "@, b, rest);
            assert(whole =~= joined(front + ": queries "@ + a + ", keys "@ + b, ", values "@, c, none));
        },
        TensorFault::NonFiniteOutput { operation, index } => {
            let b = text::decimal(index);
            let label = " produced a non-finite value at index "@;
            assert(whole =~= none + ("tensor operation "@ + operation + (label + b + none)));
            lemma_two(whole, none, "tensor operation "@, operation, label, b, none);
        },
        TensorFault::NonFiniteInput { index } => {
            assert(whole =~= joined(
                none,
                "tensor input at index "@,
                text::decimal(index),
                " is not finite"@,
            ));
        },
        _ => {},
    }
}

/// Messages about graphs state what was received and what is expected.
pub proof fn law_graph_messages(error: &GraphError, message: String)
    requires
        call_ensures(GraphError::message, (error,), message),
    ensures
        error@ matches GraphFault::InvalidValue(value) ==> says(
            message@,
            "graph value "@,
            text::decimal(value),
        ),
        error@ matches GraphFault::InputCount { expected, actual } ==> says(
            message@,
            "graph received "@,
            text::decimal(actual),
        ) && says(message@, " inputs, expected "@, text::decimal(expected)),
        error@ matches GraphFault::InputShape { index, expected, actual } ==> says(
            message@,
            "graph input "@,
            text::decimal(index),
        ) && says(message@, " has shape "@, dimensions(actual)) && says(
            message@,
            ", expected "@,
            dimensions(expected),
        ),
        error@ matches GraphFault::Tensor(fault) ==> message@ == tensor_error::tensor_fault_text(
            fault,
        ),
{
    let whole = message@;
    let none = Seq::<char>::empty();
    match error@ {
        GraphFault::InvalidValue(value) => {
            assert(whole =~= joined(none, "graph value "@, text::decimal(value), " is invalid"@));
        },
        GraphFault::InputCount { expected, actual } => {
            let a = text::decimal(actual);
            let b = text::decimal(expected);
            assert(whole =~= none + ("graph received "@ + a + (" inputs, expected "@ + b + none)));
            lemma_two(whole, none, "graph received "@, a, " inputs, expected "@, b, none);
        },
        GraphFault::InputShape { index, expected, actual } => {
            let a = text::decimal(index);
            let b = dimensions(actual);
            let c = dimensions(expected);
            let rest = ", expected "@ + c;
            assert(whole =~= none + ("graph input "@ + a + (" has shape "@ + b + rest)));
            lemma_two(whole, none, "graph input "@, a, " has shape "@, b, rest);
            assert(whole =~= joined(
                "graph input "@ + a + " has shape "@ + b,
                ", expected "@,
                c,
                none,
            ));
        },
        _ => {},
    }
}

/// Messages about models name the entry and state its type or length and what is
/// expected or allowed.
pub proof fn law_model_messages(error: &ModelError, message: String)
    requires
        call_ensures(ModelError::message, (error,), message),
    ensures
        error@ matches ModelFault::TensorNotFound(name) ==> says(
            message@,
            "GGUF tensor not found: "@,
            name,
        ),
        error@ matches ModelFault::Shape(reason) ==> says(
            message@,
            "GGUF tensor shape is invalid: "@,
            reason,
        ),
        error@ matches ModelFault::Parse(reason) ==> says(
            message@,
            "GGUF model is invalid: "@,
            reason,
        ),
        error@ matches ModelFault::MetadataArrayType { key, expected, actual } ==> says(
            message@,
            "GGUF metadata "@,
            key,
        ) && says(message@, " array has element type "@, actual) && says(
            message@,
            ", expected "@,
            expected,
        ),
        error@ matches ModelFault::MetadataArrayLimit { key, len, max } ==> says(
            message@,
            "GGUF metadata "@,
            key,
        ) && says(message@, " array has "@, text::decimal(len)) && says(
            message@,
            " elements, exceeding limit "@,
            text::decimal(max),
        ),
{
    let whole = message@;
    let none = Seq::<char>::empty();
    match error@ {
        ModelFault::TensorNotFound(name) => {
            assert(whole =~= joined(none, "GGUF tensor not found: "@, name, none));
        },
        ModelFault::Shape(reason) => {
            assert(whole =~= joined(none, "GGUF tensor shape is invalid: "@, reason, none));
        },
        ModelFault::Parse(reason) => {
            assert(whole =~= joined(none, "GGUF model is invalid: "@, reason, none));
        },
        ModelFault::MetadataArrayType { key, expected, actual } => {
            let label = " array has element type "@;
            let rest = ", expected "@ + expected;
            assert(whole =~= none + ("GGUF metadata "@ + key + (label + actual + rest)));
            lemma_two(whole, none, "GGUF metadata "@, key, label, actual, rest);
            assert(whole =~= joined(
                "GGUF metadata "@ + key + label + actual,
                ", expected "@,
                expected,
                none,
            ));
        },
        ModelFault::MetadataArrayLimit { key, len, max } => {
            let a = text::decimal(len);
            let b = text::decimal(max);
            let label = " elements, exceeding limit "@;
            let rest = label + b;
            assert(whole =~= none + ("GGUF metadata "@ + key + (" array has "@ + a + rest)));
            lemma_two(whole, none, "GGUF metadata "@, key, " array has "@, a, rest);
            assert(whole =~= joined("GGUF metadata "@ + key + " array has "@ + a, label, b, none));
        },
        _ => {},
    }
}

/// Messages about files state the place, and what is there before what is needed or
/// allowed.
pub proof fn law_file_messages(error: &Error, message: String)
    requires
        call_ensures(Error::message, (error,), message),
    ensures
        says(message@, "GGUF parse error at byte "@, text::decimal(error@.offset)),
        error@.fault matches Fault::UnexpectedEof { needed, remaining } ==> says(
            message@,
            "needed "@,
            text::decimal(needed),
        ) && says(message@, " bytes but only "@, text::decimal(remaining)),
        error@.fault matches Fault::LimitExceeded { field, value, limit } ==> says(
            message@,
            " value "@,
            text::decimal(value),
        ) && says(message@, " exceeds limit "@, text::decimal(limit)) && says(
            message@,
            ": "@,
            field,
        ),
        error@.fault matches Fault::MisalignedTensorOffset { offset, alignment } ==> says(
            message@,
            "tensor offset "@,
            text::decimal(offset),
        ) && says(message@, " is not aligned to "@, text::decimal(alignment)),
        error@.fault matches Fault::TensorRowNotDivisible {
            elements_per_row,
            block_size,
        } ==> says(message@, "tensor row has "@, text::decimal(elements_per_row)) && says(
            message@,
            " elements, not a multiple of block size "@,
            text::decimal(block_size),
        ),
        error@.fault matches Fault::UnexpectedTensorOffset { expected, actual } ==> says(
            message@,
            "tensor offset "@,
            text::decimal(actual),
        ) && says(message@, " does not match expected offset "@, text::decimal(expected)),
        error@.fault matches Fault::TensorDataTruncated { expected, actual } ==> says(
            message@,
            "tensor data section needs "@,
            text::decimal(expected),
        ) && says(message@, " bytes but only "@, text::decimal(actual)),
{
    let whole = message@;
    let none = Seq::<char>::empty();
    let place = text::decimal(error@.offset);
    let front = "GGUF parse error at byte "@ + place + ": "@;
    let body = gguf_error::fault_text(error@.fault);
    assert(whole =~= joined(none, "GGUF parse error at byte "@, place, ": "@ + body));
    match error@.fault {
        Fault::UnexpectedEof { needed, remaining } => {
            let a = text::decimal(needed);
            let b = text::decimal(remaining);
            assert(whole =~= front + ("needed "@ + a + (" bytes but only "@ + b + " remain"@)));
            lemma_two(whole, front, "needed "@, a, " bytes but only "@, b, " remain"@);
        },
        Fault::LimitExceeded { field, value, limit } => {
            let a = text::decimal(value);
            let b = text::decimal(limit);
            assert(whole =~= front + field + (" value "@ + a + (" exceeds limit "@ + b + none)));
            lemma_two(whole, front + field, " value "@, a, " exceeds limit "@, b, none);
            assert(whole =~= joined(
                "GGUF parse error at byte "@ + place,
                ": "@,
                field,
                " value "@ + a + " exceeds limit "@ + b,
            ));
        },
        Fault::MisalignedTensorOffset { offset, alignment } => {
            let a = text::decimal(offset);
            let b = text::decimal(alignment);
            let label = " is not aligned to "@;
            assert(whole =~= front + ("tensor offset "@ + a + (label + b + " bytes"@)));
            lemma_two(whole, front, "tensor offset "@, a, label, b, " bytes"@);
        },
        Fault::TensorRowNotDivisible { elements_per_row, block_size } => {
            let a = text::decimal(elements_per_row);
            let b = text::decimal(block_size);
            let label = " elements, not a multiple of block size "@;
            assert(whole =~= front + ("tensor row has "@ + a + (label + b + none)));
            lemma_two(whole, front, "tensor row has "@, a, label, b, none);
        },
        Fault::UnexpectedTensorOffset { expected, actual } => {
            let a = text::decimal(actual);
            let b = text::decimal(expected);
            let label = " does not match expected offset "@;
            assert(whole =~= front + ("tensor offset "@ + a + (label + b + none)));
            lemma_two(whole, front, "tensor offset "@, a, label, b, none);
        },
        Fault::TensorDataTruncated { expected, actual } => {
            let a = text::decimal(expected);
            let b = text::decimal(actual);
            let label = "tensor data section needs "@;
            assert(whole =~= front + (label + a + (" bytes but only "@ + b + " are present"@)));
            lemma_two(whole, front, label, a, " bytes but only "@, b, " are present"@);
        },
        _ => {},
    }
}

/// Messages about mappings and about reading state the length that was expected and
/// the one that was found.
pub proof fn law_length_messages(
    mapping: &MapError,
    reading: &ReadError,
    mapped: String,
    read: String,
)
    requires
        call_ensures(MapError::message, (mapping,), mapped),
        call_ensures(ReadError::message, (reading,), read),
    ensures
        mapping matches MapError::FileTooLarge { size, limit } ==> says(
            mapped@,
            "file size "@,
            text::decimal(size as nat),
        ) && says(mapped@, " exceeds mapping limit "@, text::decimal(limit as nat)),
        mapping matches MapError::MapLengthMismatch { expected, actual } ==> says(
            mapped@,
            "mapped length "@,
            text::decimal(actual as nat),
        ) && says(
            mapped@,
            " does not match the expected file length "@,
            text::decimal(expected as nat),
        ),
        mapping matches MapError::FileSizeChanged { expected, actual } ==> says(
            mapped@,
            "file length changed from "@,
            text::decimal(expected as nat),
        ) && says(mapped@, " to "@, text::decimal(actual as nat)),
        reading matches ReadError::FileLengthChanged { expected, actual } ==> says(
            read@,
            "GGUF file length changed while reading: expected "@,
            text::decimal(expected as nat),
        ) && says(read@, " bytes, found "@, text::decimal(actual as nat)),
{
    let none = Seq::<char>::empty();
    match mapping {
        MapError::FileTooLarge { size, limit } => {
            let a = text::decimal(*size as nat);
            let b = text::decimal(*limit as nat);
            let label = " exceeds mapping limit "@;
            assert(mapped@ =~= none + ("file size "@ + a + (label + b + none)));
            lemma_two(mapped@, none, "file size "@, a, label, b, none);
        },
        MapError::MapLengthMismatch { expected, actual } => {
            let a = text::decimal(*actual as nat);
            let b = text::decimal(*expected as nat);
            let label = " does not match the expected file length "@;
            assert(mapped@ =~= none + ("mapped length "@ + a + (label + b + none)));
            lemma_two(mapped@, none, "mapped length "@, a, label, b, none);
        },
        MapError::FileSizeChanged { expected, actual } => {
            let a = text::decimal(*expected as nat);
            let b = text::decimal(*actual as nat);
            let label = "file length changed from "@;
            assert(mapped@ =~= none + (label + a + (" to "@ + b + " bytes while mapping"@)));
            lemma_two(mapped@, none, label, a, " to "@, b, " bytes while mapping"@);
        },
        _ => {},
    }
    if let ReadError::FileLengthChanged { expected, actual } = reading {
        let a = text::decimal(*expected as nat);
        let b = text::decimal(*actual as nat);
        let label = "GGUF file length changed while reading: expected "@;
        assert(read@ =~= none + (label + a + (" bytes, found "@ + b + none)));
        lemma_two(read@, none, label, a, " bytes, found "@, b, none);
    }
}

/// Messages about memory name the path, and the hash that is expected before the one
/// that was found.
pub proof fn law_memory_messages(error: &MemoryError, message: String)
    requires
        call_ensures(MemoryError::message, (error,), message),
    ensures
        error@ matches Refusal::Missing { path } ==> says(message@, "memory path "@, path),
        error@ matches Refusal::ScopeMismatch { path } ==> says(message@, "memory path "@, path),
        error@ matches Refusal::PermissionDenied { path } ==> says(
            message@,
            "principal is not authorized for memory path "@,
            path,
        ),
        error@ matches Refusal::PreconditionRequired { path, actual_hash } ==> says(
            message@,
            "memory path "@,
            path,
        ) && says(
            message@,
            " requires a compare-and-swap precondition; current hash is "@,
            actual_hash,
        ),
        error@ matches Refusal::Conflict { path, expected_hash, actual_hash } ==> says(
            message@,
            "memory path "@,
            path,
        ) && says(message@, " changed: expected "@, expected_hash) && says(
            message@,
            ", found "@,
            actual_hash,
        ),
        error@ matches Refusal::InvalidVersion { path, version } ==> says(
            message@,
            "memory path "@,
            path,
        ) && says(message@, " has no version "@, text::decimal(version as nat)),
{
    let whole = message@;
    let none = Seq::<char>::empty();
    let label = "memory path "@;
    match error@ {
        Refusal::Missing { path } => {
            assert(whole =~= joined(none, label, path, " does not exist"@));
        },
        Refusal::ScopeMismatch { path } => {
            assert(whole =~= joined(none, label, path, " cannot change scope"@));
        },
        Refusal::PermissionDenied { path } => {
            let denied = "principal is not authorized for memory path "@;
            assert(whole =~= joined(none, denied, path, none));
        },
        Refusal::PreconditionRequired { path, actual_hash } => {
            let current = " requires a compare-and-swap precondition; current hash is "@;
            assert(whole =~= none + (label + path + (current + actual_hash + none)));
            lemma_two(whole, none, label, path, current, actual_hash, none);
        },
        Refusal::Conflict { path, expected_hash, actual_hash } => {
            let changed = " changed: expected "@;
            let rest = ", found "@ + actual_hash;
            assert(whole =~= none + (label + path + (changed + expected_hash + rest)));
            lemma_two(whole, none, label, path, changed, expected_hash, rest);
            assert(whole =~= joined(
                label + path + changed + expected_hash,
                ", found "@,
                actual_hash,
                none,
            ));
        },
        Refusal::InvalidVersion { path, version } => {
            let number = text::decimal(version as nat);
            assert(whole =~= none + (label + path + (" has no version "@ + number + none)));
            lemma_two(whole, none, label, path, " has no version "@, number, none);
        },
        _ => {},
    }
}

} // verus!
