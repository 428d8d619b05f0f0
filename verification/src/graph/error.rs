//! Errors of graph construction and evaluation.

use vstd::prelude::*;
use vstd::string::*;

use crate::graph::node::ValueId;
use crate::tensor::error as tensor_error;
use crate::tensor::error::{TensorError, TensorFault};
use crate::text;

verus! {

/// Failures returned while constructing or evaluating a graph.
#[derive(Debug, Clone, PartialEq, Eq)]
pub enum GraphError {
    InvalidValue(ValueId),
    InputCount { expected: usize, actual: usize },
    InputShape { index: usize, expected: Vec<usize>, actual: Vec<usize> },
    NoOutputs,
    /// The bounds of a clamp are not finite, or the lower one exceeds the upper.
    InvalidBounds,
    Tensor(TensorError),
}

/// A failure, as a mathematical value.
#[verifier::ext_equal]
pub enum GraphFault {
    InvalidValue(nat),
    InputCount { expected: nat, actual: nat },
    InputShape { index: nat, expected: Seq<usize>, actual: Seq<usize> },
    NoOutputs,
    InvalidBounds,
    Tensor(TensorFault),
}

impl View for GraphError {
    type V = GraphFault;

    open spec fn view(&self) -> GraphFault {
        match *self {
            GraphError::InvalidValue(value) => GraphFault::InvalidValue(value@),
            GraphError::InputCount { expected, actual } => GraphFault::InputCount {
                expected: expected as nat,
                actual: actual as nat,
            },
            GraphError::InputShape { index, expected, actual } => GraphFault::InputShape {
                index: index as nat,
                expected: expected@,
                actual: actual@,
            },
            GraphError::NoOutputs => GraphFault::NoOutputs,
            GraphError::InvalidBounds => GraphFault::InvalidBounds,
            GraphError::Tensor(error) => GraphFault::Tensor(error@),
        }
    }
}

/// The text that describes a failure.
pub open spec fn graph_fault_text(fault: GraphFault) -> Seq<char> {
    match fault {
        GraphFault::InvalidValue(value) => "graph value "@ + text::decimal(value)
            + " is invalid"@,
        GraphFault::InputCount { expected, actual } => "graph received "@ + text::decimal(actual)
            + " inputs, expected "@ + text::decimal(expected),
        GraphFault::InputShape { index, expected, actual } => "graph input "@ + text::decimal(index)
            + " has shape "@ + text::number_list(actual.map_values(|v: usize| v as nat))
            + ", expected "@ + text::number_list(expected.map_values(|v: usize| v as nat)),
        GraphFault::NoOutputs => "graph has no requested outputs"@,
        GraphFault::InvalidBounds => "graph clamp bounds must be finite and in order"@,
        GraphFault::Tensor(fault) => tensor_error::tensor_fault_text(fault),
    }
}

impl GraphError {
    /// Describes the failure.
    pub fn message(&self) -> (text: String)
        ensures
            text@ == graph_fault_text(self@),
    {
        let mut text = String::new();
        match self {
            GraphError::InvalidValue(value) => {
                text.append("graph value ");
                text::push_decimal(&mut text, value.index() as u64);
                text.append(" is invalid");
            },
            GraphError::InputCount { expected, actual } => {
                text.append("graph received ");
                text::push_decimal(&mut text, *actual as u64);
                text.append(" inputs, expected ");
                text::push_decimal(&mut text, *expected as u64);
            },
            GraphError::InputShape { index, expected, actual } => {
                text.append("graph input ");
                text::push_decimal(&mut text, *index as u64);
                text.append(" has shape ");
                text::push_number_list(&mut text, actual.as_slice());
                text.append(", expected ");
                text::push_number_list(&mut text, expected.as_slice());
            },
            GraphError::NoOutputs => text.append("graph has no requested outputs"),
            GraphError::InvalidBounds => text.append(
                "graph clamp bounds must be finite and in order",
            ),
            GraphError::Tensor(error) => {
                return error.message();
            },
        }
        assert(text@ =~= graph_fault_text(self@));
        text
    }
}

impl vstd::std_specs::convert::FromSpecImpl<TensorError> for GraphError {
    open spec fn obeys_from_spec() -> bool {
        true
    }

    open spec fn from_spec(error: TensorError) -> Self {
        GraphError::Tensor(error)
    }
}

impl From<TensorError> for GraphError {
    fn from(error: TensorError) -> (wrapped: Self) {
        GraphError::Tensor(error)
    }
}

} // verus!
