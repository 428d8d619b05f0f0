//! What each call adds to a graph.

use vstd::prelude::*;

use crate::graph::builder;
use crate::graph::builder::Graph;
use crate::graph::error::{GraphError, GraphFault};
use crate::graph::node;
use crate::graph::node::{BinaryKernel, Node, Operation, UnaryKernel, ValueId};
use crate::tensor::arithmetic::Arithmetic;
use crate::tensor::broadcast_laws;
use crate::tensor::dense::Tensor;
use crate::tensor::reals;
use crate::tensor::reals::Reals;
use crate::tensor::shape;

verus! {

/// A graph has one node more, the last, and everything before it is as it was. The
/// node applies an operation to the values of some handles, in order.
pub open spec fn appends<T, S>(
    before: Seq<Node<T, S>>,
    after: Seq<Node<T, S>>,
    operation: Operation<T, S>,
    operands: Seq<ValueId>,
    value: ValueId,
) -> bool {
    &&& after.len() == before.len() + 1
    &&& forall|i: int| 0 <= i < before.len() ==> #[trigger] after[i] == before[i]
    &&& after[before.len() as int].operation == operation
    &&& after[before.len() as int].inputs@ == operands
    &&& value@ == before.len()
}

/// A node is added if all handles are in the graph. Otherwise the graph stays as it
/// is.
pub open spec fn adds_node<T, S>(
    before: Seq<Node<T, S>>,
    after: Seq<Node<T, S>>,
    operation: Operation<T, S>,
    operands: Seq<ValueId>,
    result: Result<ValueId, GraphError>,
) -> bool {
    if forall|i: int| 0 <= i < operands.len() ==> (#[trigger] operands[i])@ < before.len() {
        result matches Ok(value) && appends(before, after, operation, operands, value)
    } else {
        &&& result matches Err(error) && error@ matches GraphFault::InvalidValue(value)
            && is_first_missing(operands, before.len(), value)
        &&& after == before
    }
}

/// The first handle that is not in a graph of so many nodes.
pub open spec fn is_first_missing(handles: Seq<ValueId>, count: nat, value: nat) -> bool {
    exists|at: int|
        {
            &&& 0 <= at < handles.len()
            &&& (#[trigger] handles[at])@ == value
            &&& value >= count
            &&& forall|i: int| 0 <= i < at ==> (#[trigger] handles[i])@ < count
        }
}

/// The first handle that is not in the graph.
proof fn lemma_handles(values: Seq<ValueId>, count: nat)
    ensures
        builder::first_invalid(values, count) is None <==> forall|i: int|
            0 <= i < values.len() ==> (#[trigger] values[i])@ < count,
        builder::first_invalid(values, count) matches Some(value) ==> is_first_missing(
            values,
            count,
            value,
        ),
    decreases values.len(),
{
    if values.len() > 0 {
        let rest = values.drop_first();
        lemma_handles(rest, count);
        if values[0]@ >= count {
            assert(is_first_missing(values, count, values[0]@));
        } else if let Some(value) = builder::first_invalid(rest, count) {
            let at = choose|at: int|
                {
                    &&& 0 <= at < rest.len()
                    &&& (#[trigger] rest[at])@ == value
                    &&& value >= count
                    &&& forall|i: int| 0 <= i < at ==> (#[trigger] rest[i])@ < count
                };
            assert(values[at + 1] == rest[at]);
            assert forall|i: int| 0 <= i < at + 1 implies (#[trigger] values[i])@ < count by {
                if i > 0 {
                    assert(rest[i - 1] == values[i]);
                }
            }
            assert(is_first_missing(values, count, value));
        }
        if forall|i: int| 0 <= i < values.len() ==> (#[trigger] values[i])@ < count {
            assert forall|i: int| 0 <= i < rest.len() implies (#[trigger] rest[i])@ < count by {
                assert(rest[i] == values[i + 1]);
            }
        }
        if values[0]@ < count && forall|i: int|
            0 <= i < rest.len() ==> (#[trigger] rest[i])@ < count {
            assert forall|i: int| 0 <= i < values.len() implies (#[trigger] values[i])@
                < count by {
                if i > 0 {
                    assert(rest[i - 1] == values[i]);
                }
            }
        }
    }
}

proof fn lemma_built<T, S>(
    before: Seq<Node<T, S>>,
    after: Seq<Node<T, S>>,
    operation: Operation<T, S>,
    operands: Seq<ValueId>,
    result: Result<ValueId, GraphError>,
)
    requires
        builder::built(before, after, operation, operands, result),
    ensures
        adds_node(before, after, operation, operands, result),
{
    lemma_handles(operands, before.len());
    if builder::first_invalid(operands, before.len()) is None {
        assert(forall|i: int| 0 <= i < before.len() ==> before[i] == #[trigger] after[i]);
        assert(after.last() == after[before.len() as int]);
    }
}

/// Operations on two values take the left one first.
pub proof fn law_two_operands_are_taken_in_order<T, S>(
    graph: &mut Graph<T, S>,
    left: ValueId,
    right: ValueId,
    result: Result<ValueId, GraphError>,
)
    ensures
        call_ensures(Graph::<T, S>::add, (graph, left, right), result) ==> adds_node(
            old(graph)@,
            final(graph)@,
            Operation::Add,
            seq![left, right],
            result,
        ),
        call_ensures(Graph::<T, S>::maximum, (graph, left, right), result) ==> adds_node(
            old(graph)@,
            final(graph)@,
            Operation::Binary(BinaryKernel::Maximum),
            seq![left, right],
            result,
        ),
        call_ensures(Graph::<T, S>::minimum, (graph, left, right), result) ==> adds_node(
            old(graph)@,
            final(graph)@,
            Operation::Binary(BinaryKernel::Minimum),
            seq![left, right],
            result,
        ),
        call_ensures(Graph::<T, S>::multiply, (graph, left, right), result) ==> adds_node(
            old(graph)@,
            final(graph)@,
            Operation::Multiply,
            seq![left, right],
            result,
        ),
        call_ensures(Graph::<T, S>::subtract, (graph, left, right), result) ==> adds_node(
            old(graph)@,
            final(graph)@,
            Operation::Binary(BinaryKernel::Subtract),
            seq![left, right],
            result,
        ),
        call_ensures(Graph::<T, S>::divide, (graph, left, right), result) ==> adds_node(
            old(graph)@,
            final(graph)@,
            Operation::Binary(BinaryKernel::Divide),
            seq![left, right],
            result,
        ),
        call_ensures(Graph::<T, S>::matmul, (graph, left, right), result) ==> adds_node(
            old(graph)@,
            final(graph)@,
            Operation::Matmul,
            seq![left, right],
            result,
        ),
{
    let before = old(graph)@;
    let after = final(graph)@;
    if call_ensures(Graph::<T, S>::add, (graph, left, right), result) {
        lemma_built(before, after, Operation::Add, seq![left, right], result);
    }
    if call_ensures(Graph::<T, S>::maximum, (graph, left, right), result) {
        lemma_built(before, after, Operation::Binary(BinaryKernel::Maximum), seq![left, right], result);
    }
    if call_ensures(Graph::<T, S>::minimum, (graph, left, right), result) {
        lemma_built(before, after, Operation::Binary(BinaryKernel::Minimum), seq![left, right], result);
    }
    if call_ensures(Graph::<T, S>::multiply, (graph, left, right), result) {
        lemma_built(before, after, Operation::Multiply, seq![left, right], result);
    }
    if call_ensures(Graph::<T, S>::subtract, (graph, left, right), result) {
        lemma_built(before, after, Operation::Binary(BinaryKernel::Subtract), seq![left, right], result);
    }
    if call_ensures(Graph::<T, S>::divide, (graph, left, right), result) {
        lemma_built(before, after, Operation::Binary(BinaryKernel::Divide), seq![left, right], result);
    }
    if call_ensures(Graph::<T, S>::matmul, (graph, left, right), result) {
        lemma_built(before, after, Operation::Matmul, seq![left, right], result);
    }
}

/// Operations on two values that have parameters keep both values and the parameters.
pub proof fn law_two_operands_are_taken_with_parameters<T, S>(
    graph: &mut Graph<T, S>,
    left: ValueId,
    right: ValueId,
    axis: usize,
    epsilon: T,
    starts: Vec<usize>,
    ends: Vec<usize>,
    axes: Vec<usize>,
    strides: Vec<usize>,
    result: Result<ValueId, GraphError>,
)
    ensures
        call_ensures(Graph::<T, S>::concatenate, (graph, left, right, axis), result) ==> adds_node(
            old(graph)@,
            final(graph)@,
            Operation::Binary(BinaryKernel::Concatenate { axis }),
            seq![left, right],
            result,
        ),
        call_ensures(Graph::<T, S>::rms_norm_with_weight, (graph, left, right, epsilon), result) ==> adds_node(
            old(graph)@,
            final(graph)@,
            Operation::RmsNormWeighted { epsilon },
            seq![left, right],
            result,
        ),
        call_ensures(Graph::<T, S>::slice_update, (graph, left, right, starts, ends, axes, strides), result) ==> adds_node(
            old(graph)@,
            final(graph)@,
            Operation::Binary(BinaryKernel::SliceUpdate { starts, ends, axes, strides }),
            seq![left, right],
            result,
        ),
{
    let before = old(graph)@;
    let after = final(graph)@;
    if call_ensures(Graph::<T, S>::concatenate, (graph, left, right, axis), result) {
        lemma_built(before, after, Operation::Binary(BinaryKernel::Concatenate { axis }), seq![left, right], result);
    }
    if call_ensures(Graph::<T, S>::rms_norm_with_weight, (graph, left, right, epsilon), result) {
        lemma_built(before, after, Operation::RmsNormWeighted { epsilon }, seq![left, right], result);
    }
    if call_ensures(Graph::<T, S>::slice_update, (graph, left, right, starts, ends, axes, strides), result) {
        lemma_built(before, after, Operation::Binary(BinaryKernel::SliceUpdate { starts, ends, axes, strides }), seq![left, right], result);
    }
}

/// Operations on one value add a node of their own kind.
pub proof fn law_one_operand_is_taken<T, S>(
    graph: &mut Graph<T, S>,
    input: ValueId,
    result: Result<ValueId, GraphError>,
)
    ensures
        call_ensures(Graph::<T, S>::transpose_2d, (graph, input), result) ==> adds_node(
            old(graph)@,
            final(graph)@,
            Operation::Transpose2d,
            seq![input],
            result,
        ),
        call_ensures(Graph::<T, S>::silu, (graph, input), result) ==> adds_node(
            old(graph)@,
            final(graph)@,
            Operation::Silu,
            seq![input],
            result,
        ),
        call_ensures(Graph::<T, S>::softmax_last_dim, (graph, input), result) ==> adds_node(
            old(graph)@,
            final(graph)@,
            Operation::SoftmaxLastDim,
            seq![input],
            result,
        ),
        call_ensures(Graph::<T, S>::negate, (graph, input), result) ==> adds_node(
            old(graph)@,
            final(graph)@,
            Operation::Unary(UnaryKernel::Negate),
            seq![input],
            result,
        ),
        call_ensures(Graph::<T, S>::absolute, (graph, input), result) ==> adds_node(
            old(graph)@,
            final(graph)@,
            Operation::Unary(UnaryKernel::Absolute),
            seq![input],
            result,
        ),
        call_ensures(Graph::<T, S>::square, (graph, input), result) ==> adds_node(
            old(graph)@,
            final(graph)@,
            Operation::Unary(UnaryKernel::Square),
            seq![input],
            result,
        ),
        call_ensures(Graph::<T, S>::square_root, (graph, input), result) ==> adds_node(
            old(graph)@,
            final(graph)@,
            Operation::Unary(UnaryKernel::SquareRoot),
            seq![input],
            result,
        ),
        call_ensures(Graph::<T, S>::reciprocal, (graph, input), result) ==> adds_node(
            old(graph)@,
            final(graph)@,
            Operation::Unary(UnaryKernel::Reciprocal),
            seq![input],
            result,
        ),
        call_ensures(Graph::<T, S>::rsqrt, (graph, input), result) ==> adds_node(
            old(graph)@,
            final(graph)@,
            Operation::Unary(UnaryKernel::Rsqrt),
            seq![input],
            result,
        ),
        call_ensures(Graph::<T, S>::exponential, (graph, input), result) ==> adds_node(
            old(graph)@,
            final(graph)@,
            Operation::Unary(UnaryKernel::Exponential),
            seq![input],
            result,
        ),
        call_ensures(Graph::<T, S>::logarithm, (graph, input), result) ==> adds_node(
            old(graph)@,
            final(graph)@,
            Operation::Unary(UnaryKernel::Logarithm),
            seq![input],
            result,
        ),
        call_ensures(Graph::<T, S>::sine, (graph, input), result) ==> adds_node(
            old(graph)@,
            final(graph)@,
            Operation::Unary(UnaryKernel::Sine),
            seq![input],
            result,
        ),
        call_ensures(Graph::<T, S>::cosine, (graph, input), result) ==> adds_node(
            old(graph)@,
            final(graph)@,
            Operation::Unary(UnaryKernel::Cosine),
            seq![input],
            result,
        ),
        call_ensures(Graph::<T, S>::tanh, (graph, input), result) ==> adds_node(
            old(graph)@,
            final(graph)@,
            Operation::Unary(UnaryKernel::Tanh),
            seq![input],
            result,
        ),
        call_ensures(Graph::<T, S>::sigmoid, (graph, input), result) ==> adds_node(
            old(graph)@,
            final(graph)@,
            Operation::Unary(UnaryKernel::Sigmoid),
            seq![input],
            result,
        ),
        call_ensures(Graph::<T, S>::sum_last_dim, (graph, input), result) ==> adds_node(
            old(graph)@,
            final(graph)@,
            Operation::Unary(UnaryKernel::SumLastDim),
            seq![input],
            result,
        ),
        call_ensures(Graph::<T, S>::mean_last_dim, (graph, input), result) ==> adds_node(
            old(graph)@,
            final(graph)@,
            Operation::Unary(UnaryKernel::MeanLastDim),
            seq![input],
            result,
        ),
{
    let before = old(graph)@;
    let after = final(graph)@;
    if call_ensures(Graph::<T, S>::transpose_2d, (graph, input), result) {
        lemma_built(before, after, Operation::Transpose2d, seq![input], result);
    }
    if call_ensures(Graph::<T, S>::silu, (graph, input), result) {
        lemma_built(before, after, Operation::Silu, seq![input], result);
    }
    if call_ensures(Graph::<T, S>::softmax_last_dim, (graph, input), result) {
        lemma_built(before, after, Operation::SoftmaxLastDim, seq![input], result);
    }
    if call_ensures(Graph::<T, S>::negate, (graph, input), result) {
        lemma_built(before, after, Operation::Unary(UnaryKernel::Negate), seq![input], result);
    }
    if call_ensures(Graph::<T, S>::absolute, (graph, input), result) {
        lemma_built(before, after, Operation::Unary(UnaryKernel::Absolute), seq![input], result);
    }
    if call_ensures(Graph::<T, S>::square, (graph, input), result) {
        lemma_built(before, after, Operation::Unary(UnaryKernel::Square), seq![input], result);
    }
    if call_ensures(Graph::<T, S>::square_root, (graph, input), result) {
        lemma_built(before, after, Operation::Unary(UnaryKernel::SquareRoot), seq![input], result);
    }
    if call_ensures(Graph::<T, S>::reciprocal, (graph, input), result) {
        lemma_built(before, after, Operation::Unary(UnaryKernel::Reciprocal), seq![input], result);
    }
    if call_ensures(Graph::<T, S>::rsqrt, (graph, input), result) {
        lemma_built(before, after, Operation::Unary(UnaryKernel::Rsqrt), seq![input], result);
    }
    if call_ensures(Graph::<T, S>::exponential, (graph, input), result) {
        lemma_built(before, after, Operation::Unary(UnaryKernel::Exponential), seq![input], result);
    }
    if call_ensures(Graph::<T, S>::logarithm, (graph, input), result) {
        lemma_built(before, after, Operation::Unary(UnaryKernel::Logarithm), seq![input], result);
    }
    if call_ensures(Graph::<T, S>::sine, (graph, input), result) {
        lemma_built(before, after, Operation::Unary(UnaryKernel::Sine), seq![input], result);
    }
    if call_ensures(Graph::<T, S>::cosine, (graph, input), result) {
        lemma_built(before, after, Operation::Unary(UnaryKernel::Cosine), seq![input], result);
    }
    if call_ensures(Graph::<T, S>::tanh, (graph, input), result) {
        lemma_built(before, after, Operation::Unary(UnaryKernel::Tanh), seq![input], result);
    }
    if call_ensures(Graph::<T, S>::sigmoid, (graph, input), result) {
        lemma_built(before, after, Operation::Unary(UnaryKernel::Sigmoid), seq![input], result);
    }
    if call_ensures(Graph::<T, S>::sum_last_dim, (graph, input), result) {
        lemma_built(before, after, Operation::Unary(UnaryKernel::SumLastDim), seq![input], result);
    }
    if call_ensures(Graph::<T, S>::mean_last_dim, (graph, input), result) {
        lemma_built(before, after, Operation::Unary(UnaryKernel::MeanLastDim), seq![input], result);
    }
}

/// Operations on one value that have parameters keep the value and the parameters.
pub proof fn law_one_operand_is_taken_with_parameters<T, S>(
    graph: &mut Graph<T, S>,
    input: ValueId,
    axis: usize,
    flag: bool,
    number: T,
    position: T,
    base: T,
    scaling: S,
    axes: Vec<usize>,
    starts: Vec<usize>,
    ends: Vec<usize>,
    strides: Vec<usize>,
    result: Result<ValueId, GraphError>,
)
    ensures
        call_ensures(Graph::<T, S>::rms_norm, (graph, input, number), result) ==> adds_node(
            old(graph)@,
            final(graph)@,
            Operation::RmsNorm { epsilon: number },
            seq![input],
            result,
        ),
        call_ensures(Graph::<T, S>::scale, (graph, input, number), result) ==> adds_node(
            old(graph)@,
            final(graph)@,
            Operation::Scale { factor: number },
            seq![input],
            result,
        ),
        call_ensures(Graph::<T, S>::softmax, (graph, input, axis), result) ==> adds_node(
            old(graph)@,
            final(graph)@,
            Operation::Unary(UnaryKernel::Softmax { axis }),
            seq![input],
            result,
        ),
        call_ensures(Graph::<T, S>::sum, (graph, input, axis, flag), result) ==> adds_node(
            old(graph)@,
            final(graph)@,
            Operation::Unary(UnaryKernel::Sum { axis, keepdims: flag }),
            seq![input],
            result,
        ),
        call_ensures(Graph::<T, S>::mean, (graph, input, axis, flag), result) ==> adds_node(
            old(graph)@,
            final(graph)@,
            Operation::Unary(UnaryKernel::Mean { axis, keepdims: flag }),
            seq![input],
            result,
        ),
        call_ensures(Graph::<T, S>::cumsum, (graph, input, axis, flag), result) ==> adds_node(
            old(graph)@,
            final(graph)@,
            Operation::Unary(UnaryKernel::Cumsum { axis, reverse: flag }),
            seq![input],
            result,
        ),
        call_ensures(Graph::<T, S>::permute, (graph, input, axes), result) ==> adds_node(
            old(graph)@,
            final(graph)@,
            Operation::Unary(UnaryKernel::Permute(axes)),
            seq![input],
            result,
        ),
        call_ensures(Graph::<T, S>::slice, (graph, input, starts, ends, axes, strides), result) ==> adds_node(
            old(graph)@,
            final(graph)@,
            Operation::Unary(UnaryKernel::Slice { starts, ends, axes, strides }),
            seq![input],
            result,
        ),
        call_ensures(Graph::<T, S>::rotary_embedding, (graph, input, axis, position, base), result) ==> adds_node(
            old(graph)@,
            final(graph)@,
            Operation::Rotary { rotary_dimension: axis, position, frequency_base: base },
            seq![input],
            result,
        ),
        call_ensures(Graph::<T, S>::rotary_embedding_with_scaling, (graph, input, axis, position, base, scaling), result) ==> adds_node(
            old(graph)@,
            final(graph)@,
            Operation::Unary(UnaryKernel::Rotary { rotary_dimension: axis, position, frequency_base: base, scaling }),
            seq![input],
            result,
        ),
{
    let before = old(graph)@;
    let after = final(graph)@;
    if call_ensures(Graph::<T, S>::rms_norm, (graph, input, number), result) {
        lemma_built(before, after, Operation::RmsNorm { epsilon: number }, seq![input], result);
    }
    if call_ensures(Graph::<T, S>::scale, (graph, input, number), result) {
        lemma_built(before, after, Operation::Scale { factor: number }, seq![input], result);
    }
    if call_ensures(Graph::<T, S>::softmax, (graph, input, axis), result) {
        lemma_built(before, after, Operation::Unary(UnaryKernel::Softmax { axis }), seq![input], result);
    }
    if call_ensures(Graph::<T, S>::sum, (graph, input, axis, flag), result) {
        lemma_built(before, after, Operation::Unary(UnaryKernel::Sum { axis, keepdims: flag }), seq![input], result);
    }
    if call_ensures(Graph::<T, S>::mean, (graph, input, axis, flag), result) {
        lemma_built(before, after, Operation::Unary(UnaryKernel::Mean { axis, keepdims: flag }), seq![input], result);
    }
    if call_ensures(Graph::<T, S>::cumsum, (graph, input, axis, flag), result) {
        lemma_built(before, after, Operation::Unary(UnaryKernel::Cumsum { axis, reverse: flag }), seq![input], result);
    }
    if call_ensures(Graph::<T, S>::permute, (graph, input, axes), result) {
        lemma_built(before, after, Operation::Unary(UnaryKernel::Permute(axes)), seq![input], result);
    }
    if call_ensures(Graph::<T, S>::slice, (graph, input, starts, ends, axes, strides), result) {
        lemma_built(before, after, Operation::Unary(UnaryKernel::Slice { starts, ends, axes, strides }), seq![input], result);
    }
    if call_ensures(Graph::<T, S>::rotary_embedding, (graph, input, axis, position, base), result) {
        lemma_built(before, after, Operation::Rotary { rotary_dimension: axis, position, frequency_base: base }, seq![input], result);
    }
    if call_ensures(Graph::<T, S>::rotary_embedding_with_scaling, (graph, input, axis, position, base, scaling), result) {
        lemma_built(before, after, Operation::Unary(UnaryKernel::Rotary { rotary_dimension: axis, position, frequency_base: base, scaling }), seq![input], result);
    }
}

/// Attention takes queries, keys and values in this order.
pub proof fn law_attention_takes_queries_keys_and_values<T, S>(
    graph: &mut Graph<T, S>,
    queries: ValueId,
    keys: ValueId,
    values: ValueId,
    scale: T,
    causal: bool,
    result: Result<ValueId, GraphError>,
)
    ensures
        call_ensures(Graph::<T, S>::scaled_dot_product_attention, (graph, queries, keys, values, scale, causal), result) ==> adds_node(
            old(graph)@,
            final(graph)@,
            Operation::Attention { scale, causal },
            seq![queries, keys, values],
            result,
        ),
{
    let before = old(graph)@;
    let after = final(graph)@;
    if call_ensures(Graph::<T, S>::scaled_dot_product_attention, (graph, queries, keys, values, scale, causal), result) {
        lemma_built(before, after, Operation::Attention { scale, causal }, seq![queries, keys, values], result);
    }
}

/// A shape that a tensor can have: no dimension is zero, and the product of all can
/// be counted.
pub open spec fn is_shape(shape: Seq<usize>) -> bool {
    &&& forall|i: int| 0 <= i < shape.len() ==> #[trigger] shape[i] > 0
    &&& broadcast_laws::volume(shape) <= usize::MAX
}

proof fn lemma_shape(shape: Seq<usize>)
    ensures
        is_shape(shape) <==> shape::shape_fault(shape) is None,
{
    broadcast_laws::lemma_volume(shape);
    if shape::nonzero(shape) {
        assert forall|i: int| 0 <= i < shape.len() implies #[trigger] shape[i] > 0 by {
            assert(shape.contains(shape[i]));
        }
    }
}

/// A value is given another shape, or repeated to one, if the shape is that of a
/// tensor.
pub proof fn law_shapes_are_checked<T, S>(
    graph: &mut Graph<T, S>,
    input: ValueId,
    shape: Vec<usize>,
    result: Result<ValueId, GraphError>,
)
    ensures
        call_ensures(Graph::<T, S>::reshape, (graph, input, shape), result) ==> if is_shape(
            shape@,
        ) {
            adds_node(
                old(graph)@,
                final(graph)@,
                Operation::Reshape(shape),
                seq![input],
                result,
            )
        } else {
            result is Err && final(graph)@ == old(graph)@
        },
        call_ensures(Graph::<T, S>::broadcast_to, (graph, input, shape), result) ==> if is_shape(
            shape@,
        ) {
            adds_node(
                old(graph)@,
                final(graph)@,
                Operation::Broadcast(shape),
                seq![input],
                result,
            )
        } else {
            result is Err && final(graph)@ == old(graph)@
        },
{
    let before = old(graph)@;
    let after = final(graph)@;
    lemma_shape(shape@);
    lemma_handles(seq![input], before.len());
    if call_ensures(Graph::<T, S>::reshape, (graph, input, shape), result) {
        let operation = Operation::Reshape(shape);
        if builder::built(before, after, operation, seq![input], result) {
            lemma_built(before, after, operation, seq![input], result);
        }
    }
    if call_ensures(Graph::<T, S>::broadcast_to, (graph, input, shape), result) {
        let operation = Operation::Broadcast(shape);
        if builder::built(before, after, operation, seq![input], result) {
            lemma_built(before, after, operation, seq![input], result);
        }
    }
}

/// Rows are gathered by at least one index.
pub proof fn law_rows_are_gathered<T, S>(
    graph: &mut Graph<T, S>,
    input: ValueId,
    indices: Vec<usize>,
    result: Result<ValueId, GraphError>,
)
    requires
        call_ensures(Graph::<T, S>::gather_rows, (graph, input, indices), result),
    ensures
        if indices@.len() > 0 {
            adds_node(
                old(graph)@,
                final(graph)@,
                Operation::Unary(UnaryKernel::GatherRows(indices)),
                seq![input],
                result,
            )
        } else {
            result is Err && final(graph)@ == old(graph)@
        },
{
    let before = old(graph)@;
    let after = final(graph)@;
    let operation = Operation::Unary(UnaryKernel::GatherRows(indices));
    lemma_handles(seq![input], before.len());
    assert(seq![input][0] == input);
    if builder::built(before, after, operation, seq![input], result) {
        lemma_built(before, after, operation, seq![input], result);
    }
}

/// Values are clamped between numbers of which the first is not above the second.
pub proof fn law_bounds_are_in_order<T: Copy, S, A: Arithmetic<T>>(
    arithmetic: &A,
    n: Reals<T>,
    graph: &mut Graph<T, S>,
    input: ValueId,
    minimum: T,
    maximum: T,
    result: Result<ValueId, GraphError>,
)
    requires
        reals::exact(arithmetic, n),
        n.is(minimum),
        n.is(maximum),
        call_ensures(
            Graph::<T, S>::clamp::<A>,
            (graph, input, minimum, maximum, arithmetic),
            result,
        ),
    ensures
        if n.of(minimum) <= n.of(maximum) {
            adds_node(
                old(graph)@,
                final(graph)@,
                Operation::Unary(UnaryKernel::Clamp { minimum, maximum }),
                seq![input],
                result,
            )
        } else {
            result is Err && final(graph)@ == old(graph)@
        },
{
    let before = old(graph)@;
    let after = final(graph)@;
    let operation = Operation::Unary(UnaryKernel::Clamp { minimum, maximum });
    lemma_handles(seq![input], before.len());
    if builder::built(before, after, operation, seq![input], result) {
        lemma_built(before, after, operation, seq![input], result);
    }
}

/// The inputs of a graph before a node.
pub open spec fn inputs_among<T, S>(nodes: Seq<Node<T, S>>) -> nat {
    nodes.filter(|node: Node<T, S>| node.operation is Input).len()
}

pub(crate) proof fn lemma_inputs<T, S>(nodes: Seq<Node<T, S>>, count: nat)
    requires
        count <= nodes.len(),
    ensures
        node::inputs_before(nodes, count) == inputs_among(nodes.take(count as int)),
    decreases count,
{
    reveal(Seq::filter);
    if count > 0 {
        lemma_inputs(nodes, (count - 1) as nat);
        let some = nodes.take(count as int);
        assert(some.drop_last() =~= nodes.take(count - 1));
        assert(some.last() == nodes[count - 1]);
    }
}

/// Inputs are numbered in the order in which they were asked for, and constants
/// keep their tensors.
pub proof fn law_inputs_are_numbered_in_order<T, S>(
    graph: &mut Graph<T, S>,
    shape: Vec<usize>,
    tensor: Tensor<T>,
    result: Result<ValueId, GraphError>,
    value: ValueId,
)
    ensures
        call_ensures(Graph::<T, S>::input, (graph, shape), result) ==> if is_shape(shape@) {
            exists|index: usize|
                {
                    &&& index == inputs_among(old(graph)@)
                    &&& result is Ok
                    &&& #[trigger] appends(
                        old(graph)@,
                        final(graph)@,
                        Operation::Input { index, shape },
                        seq![],
                        result->Ok_0,
                    )
                }
        } else {
            result is Err && final(graph)@ == old(graph)@
        },
        call_ensures(Graph::<T, S>::constant, (graph, tensor), value) ==> appends(
            old(graph)@,
            final(graph)@,
            Operation::Constant(tensor),
            seq![],
            value,
        ),
{
    let before = old(graph)@;
    let after = final(graph)@;
    lemma_shape(shape@);
    lemma_inputs(before, before.len());
    assert(before.take(before.len() as int) =~= before);
    if call_ensures(Graph::<T, S>::input, (graph, shape), result) && is_shape(shape@) {
        assert(forall|i: int| 0 <= i < before.len() ==> before[i] == #[trigger] after[i]);
        assert(after.last() == after[before.len() as int]);
        let index = after.last().operation->index;
        assert(appends(
            before,
            after,
            Operation::Input { index, shape },
            seq![],
            result->Ok_0,
        ));
    }
    if call_ensures(Graph::<T, S>::constant, (graph, tensor), value) {
        assert(forall|i: int| 0 <= i < before.len() ==> before[i] == #[trigger] after[i]);
        assert(after.last() == after[before.len() as int]);
    }
}

} // verus!
