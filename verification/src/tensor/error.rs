//! Errors of checked tensor construction and operations.

use vstd::prelude::*;
use vstd::string::*;

use crate::text;

verus! {

/// Failures returned by checked tensor construction and operations.
#[derive(Debug, Clone, PartialEq, Eq)]
pub enum TensorError {
    ElementCountOverflow,
    DataLength { expected: usize, actual: usize },
    ShapeMismatch { left: Vec<usize>, right: Vec<usize> },
    RankMismatch { expected: usize, actual: usize },
    MatrixShapeMismatch { left: Vec<usize>, right: Vec<usize> },
    AttentionShapeMismatch { queries: Vec<usize>, keys: Vec<usize>, values: Vec<usize> },
    ZeroDimension,
    InvalidEpsilon,
    InvalidScale,
    RotaryShapeMismatch { shape: Vec<usize> },
    InvalidFrequencyBase,
    InvalidPosition,
    NonFiniteInput { index: usize },
    NonFiniteOutput { operation: &'static str, index: usize },
}

/// A failure, as a mathematical value.
#[verifier::ext_equal]
pub enum TensorFault {
    ElementCountOverflow,
    DataLength { expected: nat, actual: nat },
    ShapeMismatch { left: Seq<usize>, right: Seq<usize> },
    RankMismatch { expected: nat, actual: nat },
    MatrixShapeMismatch { left: Seq<usize>, right: Seq<usize> },
    AttentionShapeMismatch { queries: Seq<usize>, keys: Seq<usize>, values: Seq<usize> },
    ZeroDimension,
    InvalidEpsilon,
    InvalidScale,
    RotaryShapeMismatch { shape: Seq<usize> },
    InvalidFrequencyBase,
    InvalidPosition,
    NonFiniteInput { index: nat },
    NonFiniteOutput { operation: Seq<char>, index: nat },
}

impl View for TensorError {
    type V = TensorFault;

    open spec fn view(&self) -> TensorFault {
        match *self {
            TensorError::ElementCountOverflow => TensorFault::ElementCountOverflow,
            TensorError::DataLength { expected, actual } => TensorFault::DataLength {
                expected: expected as nat,
                actual: actual as nat,
            },
            TensorError::ShapeMismatch { left, right } => TensorFault::ShapeMismatch {
                left: left@,
                right: right@,
            },
            TensorError::RankMismatch { expected, actual } => TensorFault::RankMismatch {
                expected: expected as nat,
                actual: actual as nat,
            },
            TensorError::MatrixShapeMismatch { left, right } => TensorFault::MatrixShapeMismatch {
                left: left@,
                right: right@,
            },
            TensorError::AttentionShapeMismatch { queries, keys, values } => {
                TensorFault::AttentionShapeMismatch {
                    queries: queries@,
                    keys: keys@,
                    values: values@,
                }
            },
            TensorError::ZeroDimension => TensorFault::ZeroDimension,
            TensorError::InvalidEpsilon => TensorFault::InvalidEpsilon,
            TensorError::InvalidScale => TensorFault::InvalidScale,
            TensorError::RotaryShapeMismatch { shape } => TensorFault::RotaryShapeMismatch {
                shape: shape@,
            },
            TensorError::InvalidFrequencyBase => TensorFault::InvalidFrequencyBase,
            TensorError::InvalidPosition => TensorFault::InvalidPosition,
            TensorError::NonFiniteInput { index } => TensorFault::NonFiniteInput {
                index: index as nat,
            },
            TensorError::NonFiniteOutput { operation, index } => TensorFault::NonFiniteOutput {
                operation: operation@,
                index: index as nat,
            },
        }
    }
}

/// The text of a shape.
pub open spec fn shape_text(shape: Seq<usize>) -> Seq<char> {
    text::number_list(shape.map_values(|dimension: usize| dimension as nat))
}

/// The text that describes a failure.
pub open spec fn tensor_fault_text(fault: TensorFault) -> Seq<char> {
    match fault {
        TensorFault::ElementCountOverflow => "tensor element count overflowed"@,
        TensorFault::DataLength { expected, actual } => "tensor data contains "@
            + text::decimal(actual) + " values, expected "@ + text::decimal(expected),
        TensorFault::ShapeMismatch { left, right } => "tensor shapes differ: "@ + shape_text(left)
            + " and "@ + shape_text(right),
        TensorFault::RankMismatch { expected, actual } => "tensor rank is "@ + text::decimal(
            actual,
        ) + ", expected "@ + text::decimal(expected),
        TensorFault::MatrixShapeMismatch { left, right } =>
            "matrix shapes cannot be multiplied: "@ + shape_text(left) + " and "@ + shape_text(
            right,
        ),
        TensorFault::AttentionShapeMismatch { queries, keys, values } =>
            "attention shapes are incompatible: queries "@ + shape_text(queries) + ", keys "@
            + shape_text(keys) + ", values "@ + shape_text(values),
        TensorFault::ZeroDimension => "tensor dimensions must be nonzero"@,
        TensorFault::InvalidEpsilon => "RMSNorm epsilon must be finite and nonnegative"@,
        TensorFault::InvalidScale => "attention scale must be finite"@,
        TensorFault::RotaryShapeMismatch { shape } =>
            "rotary embedding requires a rank-2 head tensor, got "@ + shape_text(shape),
        TensorFault::InvalidFrequencyBase => "rotary frequency base must be finite and positive"@,
        TensorFault::InvalidPosition => "rotary position must be finite"@,
        TensorFault::NonFiniteInput { index } => "tensor input at index "@ + text::decimal(index)
            + " is not finite"@,
        TensorFault::NonFiniteOutput { operation, index } => "tensor operation "@ + operation
            + " produced a non-finite value at index "@ + text::decimal(index),
    }
}

impl TensorError {
    /// Describes this error in one sentence.
    pub fn message(&self) -> (text: String)
        ensures
            text@ == tensor_fault_text(self@),
    {
        let mut text = String::new();
        match self {
            TensorError::ElementCountOverflow => text.append("tensor element count overflowed"),
            TensorError::DataLength { expected, actual } => {
                text.append("tensor data contains ");
                text::push_decimal(&mut text, *actual as u64);
                text.append(" values, expected ");
                text::push_decimal(&mut text, *expected as u64);
            },
            TensorError::ShapeMismatch { left, right } => {
                text.append("tensor shapes differ: ");
                text::push_number_list(&mut text, left.as_slice());
                text.append(" and ");
                text::push_number_list(&mut text, right.as_slice());
            },
            TensorError::RankMismatch { expected, actual } => {
                text.append("tensor rank is ");
                text::push_decimal(&mut text, *actual as u64);
                text.append(", expected ");
                text::push_decimal(&mut text, *expected as u64);
            },
            TensorError::MatrixShapeMismatch { left, right } => {
                text.append("matrix shapes cannot be multiplied: ");
                text::push_number_list(&mut text, left.as_slice());
                text.append(" and ");
                text::push_number_list(&mut text, right.as_slice());
            },
            TensorError::AttentionShapeMismatch { queries, keys, values } => {
                text.append("attention shapes are incompatible: queries ");
                text::push_number_list(&mut text, queries.as_slice());
                text.append(", keys ");
                text::push_number_list(&mut text, keys.as_slice());
                text.append(", values ");
                text::push_number_list(&mut text, values.as_slice());
            },
            TensorError::ZeroDimension => text.append("tensor dimensions must be nonzero"),
            TensorError::InvalidEpsilon => text.append(
                "RMSNorm epsilon must be finite and nonnegative",
            ),
            TensorError::InvalidScale => text.append("attention scale must be finite"),
            TensorError::RotaryShapeMismatch { shape } => {
                text.append("rotary embedding requires a rank-2 head tensor, got ");
                text::push_number_list(&mut text, shape.as_slice());
            },
            TensorError::InvalidFrequencyBase => text.append(
                "rotary frequency base must be finite and positive",
            ),
            TensorError::InvalidPosition => text.append("rotary position must be finite"),
            TensorError::NonFiniteInput { index } => {
                text.append("tensor input at index ");
                text::push_decimal(&mut text, *index as u64);
                text.append(" is not finite");
            },
            TensorError::NonFiniteOutput { operation, index } => {
                text.append("tensor operation ");
                text.append(operation);
                text.append(" produced a non-finite value at index ");
                text::push_decimal(&mut text, *index as u64);
            },
        }
        assert(text@ =~= tensor_fault_text(self@));
        text
    }
}

} // verus!
