//! What the values of a graph are.

use vstd::prelude::*;

use crate::graph::builder::Graph;
use crate::graph::building_laws;
use crate::graph::error::{GraphError, GraphFault};
use crate::graph::evaluate;
use crate::graph::node;
use crate::graph::node::{Kernels, Node, Operation, ValueId};
use crate::tensor::arithmetic::Arithmetic;
use crate::tensor::dense::Tensor;

verus! {

/// `value` is what an operation gives for the values `a`, `b` and `c`, of which it
/// takes as many as it needs.
pub open spec fn gives<T: Copy, S, A: Arithmetic<T>, K: Kernels<T, S>>(
    arithmetic: &A,
    kernels: &K,
    operation: Operation<T, S>,
    a: Tensor<T>,
    b: Tensor<T>,
    c: Tensor<T>,
    value: Tensor<T>,
) -> bool {
    let result = Ok(value);
    match operation {
        Operation::Input { .. } | Operation::Constant(_) => true,
        Operation::Add => call_ensures(Tensor::<T>::add::<A>, (&a, &b, arithmetic), result),
        Operation::Multiply => call_ensures(Tensor::<T>::mul::<A>, (&a, &b, arithmetic), result),
        Operation::Matmul => call_ensures(Tensor::<T>::matmul::<A>, (&a, &b, arithmetic), result),
        Operation::Reshape(shape) => value@.shape == shape@ && value@.data == a@.data,
        Operation::Transpose2d => call_ensures(
            Tensor::<T>::transpose_2d::<A>,
            (&a, arithmetic),
            result,
        ),
        Operation::Broadcast(shape) => exists|target: Vec<usize>|
            target@ == shape@ && #[trigger] call_ensures(
                Tensor::<T>::broadcast_to::<A>,
                (&a, target, arithmetic),
                result,
            ),
        Operation::RmsNorm { epsilon } => call_ensures(
            Tensor::<T>::rms_norm::<A>,
            (&a, epsilon, arithmetic),
            result,
        ),
        Operation::RmsNormWeighted { epsilon } => call_ensures(
            Tensor::<T>::rms_norm_with_weight::<A>,
            (&a, &b, epsilon, arithmetic),
            result,
        ),
        Operation::Scale { factor } => call_ensures(
            Tensor::<T>::scale::<A>,
            (&a, factor, arithmetic),
            result,
        ),
        Operation::Silu => call_ensures(Tensor::<T>::silu::<A>, (&a, arithmetic), result),
        Operation::SoftmaxLastDim => call_ensures(
            Tensor::<T>::softmax_last_dim::<A>,
            (&a, arithmetic),
            result,
        ),
        Operation::Rotary { rotary_dimension, position, frequency_base } => call_ensures(
            Tensor::<T>::rotary_embedding::<A>,
            (&a, rotary_dimension, position, frequency_base, arithmetic),
            result,
        ),
        Operation::Attention { scale, causal } => call_ensures(
            Tensor::<T>::scaled_dot_product_attention::<A>,
            (&a, &b, &c, scale, causal, arithmetic),
            result,
        ),
        Operation::Unary(kernel) => call_ensures(K::apply_one, (kernels, &kernel, &a), result),
        Operation::Binary(kernel) => call_ensures(
            K::apply_two,
            (kernels, &kernel, &a, &b),
            result,
        ),
    }
}

/// Handle number `place` asks for the value of operand number `operand` of a node,
/// if the node has so many.
pub open spec fn asks_for<T, S>(
    node: Node<T, S>,
    operand: int,
    outputs: Seq<ValueId>,
    place: int,
) -> bool {
    operand < node.inputs@.len() ==> 0 <= place < outputs.len() && outputs[place]@
        == node.inputs@[operand]@
}

/// The values that a graph gives for a node and for its operands agree: the value is
/// what the operation of the node gives for the operands.
pub proof fn law_values_are_what_operations_give<
    T: Copy,
    S,
    A: Arithmetic<T>,
    K: Kernels<T, S>,
>(
    graph: &Graph<T, S>,
    arithmetic: &A,
    kernels: &K,
    inputs: &[Tensor<T>],
    outputs: &[ValueId],
    results: Vec<Tensor<T>>,
    at: int,
    place: int,
    first: int,
    second: int,
    third: int,
)
    requires
        call_ensures(
            Graph::<T, S>::evaluate::<A, K>,
            (graph, inputs, outputs, arithmetic, kernels),
            Ok::<Vec<Tensor<T>>, GraphError>(results),
        ),
        0 <= at < graph@.len(),
        0 <= place < outputs@.len(),
        outputs@[place]@ == at,
        asks_for(graph@[at], 0, outputs@, first),
        asks_for(graph@[at], 1, outputs@, second),
        asks_for(graph@[at], 2, outputs@, third),
        forall|i: int|
            0 <= i < graph@[at].inputs@.len() ==> (#[trigger] graph@[at].inputs@[i])@ < at,
    ensures
        results@.len() == outputs@.len(),
        exists|a: Tensor<T>, b: Tensor<T>, c: Tensor<T>, value: Tensor<T>|
            {
                &&& graph@[at].inputs@.len() > 0 ==> a@ == results@[first]@
                &&& graph@[at].inputs@.len() > 1 ==> b@ == results@[second]@
                &&& graph@[at].inputs@.len() > 2 ==> c@ == results@[third]@
                &&& value@ == results@[place]@
                &&& #[trigger] gives(
                    arithmetic,
                    kernels,
                    graph@[at].operation,
                    a,
                    b,
                    c,
                    value,
                )
            },
        graph@[at].operation matches Operation::Input { index, .. } ==> results@[place]@
            == inputs@[index as int]@,
        graph@[at].operation matches Operation::Constant(tensor) ==> results@[place]@ == tensor@,
{
    let nodes = graph@;
    let node = nodes[at];
    let values = choose|values: Seq<Tensor<T>>|
        {
            &&& #[trigger] evaluate::values_hold(arithmetic, kernels, nodes, inputs@, values)
            &&& values.len() == nodes.len()
            &&& evaluate::outputs_hold(outputs@, values, results@)
            &&& results@.len() == outputs@.len()
        };
    assert(evaluate::output_holds(outputs@[place], values, results@[place]));
    let before = values.take(at);
    let value = values[at];
    assert(evaluate::node_result(
        arithmetic,
        kernels,
        node,
        inputs@,
        before,
        Ok(value),
    ));
    let a = evaluate::operand(node, before, 0);
    let b = evaluate::operand(node, before, 1);
    let c = evaluate::operand(node, before, 2);
    if node.inputs@.len() > 0 {
        assert(node.inputs@[0]@ < at);
        assert(evaluate::output_holds(outputs@[first], values, results@[first]));
    }
    if node.inputs@.len() > 1 {
        assert(node.inputs@[1]@ < at);
        assert(evaluate::output_holds(outputs@[second], values, results@[second]));
    }
    if node.inputs@.len() > 2 {
        assert(node.inputs@[2]@ < at);
        assert(evaluate::output_holds(outputs@[third], values, results@[third]));
    }
    assert(gives(arithmetic, kernels, node.operation, a, b, c, value));
}

/// An input differs in shape from what a node declares.
pub open spec fn differs<T, S>(node: Node<T, S>, inputs: Seq<Tensor<T>>) -> bool {
    node.operation matches Operation::Input { index, shape } && inputs[index as int]@.shape
        != shape@
}

/// A node declares the shape of an input with a given number.
pub open spec fn declares<T, S>(nodes: Seq<Node<T, S>>, number: nat, declared: Seq<usize>) -> bool {
    exists|i: int|
        0 <= i < nodes.len() && ((#[trigger] nodes[i]).operation matches Operation::Input {
            index,
            shape,
        } && index == number && shape@ == declared)
}

/// A graph is evaluated for at least one handle, with as many inputs as were asked
/// for, of the shapes that were declared, and for handles that are in the graph.
pub proof fn law_evaluations_are_checked<T: Copy, S, A: Arithmetic<T>, K: Kernels<T, S>>(
    graph: &Graph<T, S>,
    arithmetic: &A,
    kernels: &K,
    inputs: &[Tensor<T>],
    outputs: &[ValueId],
    result: Result<Vec<Tensor<T>>, GraphError>,
)
    requires
        call_ensures(
            Graph::<T, S>::evaluate::<A, K>,
            (graph, inputs, outputs, arithmetic, kernels),
            result,
        ),
    ensures
        outputs@.len() == 0 ==> result is Err && result->Err_0@ == GraphFault::NoOutputs,
        outputs@.len() > 0 && inputs@.len() != building_laws::inputs_among(graph@) ==> result is Err
            && result->Err_0@ == (GraphFault::InputCount {
            expected: building_laws::inputs_among(graph@),
            actual: inputs@.len(),
        }),
        result matches Err(error) ==> (error@ matches GraphFault::InputShape {
            index,
            expected,
            actual,
        } ==> {
            &&& index < inputs@.len() ==> actual == inputs@[index as int]@.shape
            &&& expected != actual
            &&& declares(graph@, index, expected)
        }),
        result matches Err(error) ==> (error@ matches GraphFault::InvalidValue(value)
            ==> building_laws::is_first_missing(outputs@, graph@.len(), value)),
        result is Ok ==> {
            &&& outputs@.len() > 0
            &&& inputs@.len() == building_laws::inputs_among(graph@)
            &&& forall|i: int| 0 <= i < graph@.len() ==> !differs(#[trigger] graph@[i], inputs@)
            &&& forall|i: int| 0 <= i < outputs@.len() ==> (#[trigger] outputs@[i])@ < graph@.len()
        },
        outputs@.len() > 0 && inputs@.len() == building_laws::inputs_among(graph@) && (exists|i: int|
            0 <= i < graph@.len() && differs(#[trigger] graph@[i], inputs@)) ==> result is Err
            && result->Err_0@ is InputShape,
{
    let nodes = graph@;
    building_laws::lemma_inputs(nodes, nodes.len());
    assert(nodes.take(nodes.len() as int) =~= nodes);
    assert forall|i: int| 0 <= i < nodes.len() implies differs(#[trigger] nodes[i], inputs@)
        == evaluate::shape_differs(nodes[i], inputs@) by {}
    if let Ok(results) = result {
        let values = choose|values: Seq<Tensor<T>>|
            {
                &&& #[trigger] evaluate::values_hold(arithmetic, kernels, nodes, inputs@, values)
                &&& values.len() == nodes.len()
                &&& evaluate::outputs_hold(outputs@, values, results@)
                &&& results@.len() == outputs@.len()
            };
        assert forall|i: int| 0 <= i < outputs@.len() implies (#[trigger] outputs@[i])@
            < nodes.len() by {
            assert(evaluate::output_holds(outputs@[i], values, results@[i]));
        }
    }
}

} // verus!
