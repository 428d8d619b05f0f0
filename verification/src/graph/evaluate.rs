//! Evaluation of graphs.

use vstd::prelude::*;

use crate::graph::builder::Graph;
use crate::graph::error::{GraphError, GraphFault};
use crate::graph::node;
use crate::graph::node::{Kernels, Node, Operation, ValueId};
use crate::tensor::arithmetic::Arithmetic;
use crate::tensor::dense;
use crate::tensor::dense::{Contents, Tensor};
use crate::tensor::error::{TensorError, TensorFault};

verus! {

/// The value that a node is applied to.
pub open spec fn operand<T, S>(
    node: Node<T, S>,
    values: Seq<Tensor<T>>,
    number: int,
) -> Tensor<T> {
    values[node.inputs@[number]@ as int]
}

/// `result` is what a node yields, given the values before it.
pub open spec fn node_result<T: Copy, S, A: Arithmetic<T>, K: Kernels<T, S>>(
    arithmetic: &A,
    kernels: &K,
    node: Node<T, S>,
    inputs: Seq<Tensor<T>>,
    values: Seq<Tensor<T>>,
    result: Result<Tensor<T>, TensorError>,
) -> bool {
    let first = operand(node, values, 0);
    let second = operand(node, values, 1);
    let third = operand(node, values, 2);
    match node.operation {
        Operation::Input { index, .. } => result matches Ok(value) && value@ == inputs[
            index as int
        ]@,
        Operation::Constant(tensor) => result matches Ok(value) && value@ == tensor@,
        Operation::Add => call_ensures(
            Tensor::<T>::add::<A>,
            (&first, &second, arithmetic),
            result,
        ),
        Operation::Multiply => call_ensures(
            Tensor::<T>::mul::<A>,
            (&first, &second, arithmetic),
            result,
        ),
        Operation::Matmul => call_ensures(
            Tensor::<T>::matmul::<A>,
            (&first, &second, arithmetic),
            result,
        ),
        Operation::Reshape(shape) => dense::answer_of(result) == match dense::length_fault(
            shape@,
            first@.data.len(),
        ) {
            Some(fault) => Err(fault),
            None => Ok(Contents { shape: shape@, data: first@.data }),
        },
        Operation::Transpose2d => call_ensures(
            Tensor::<T>::transpose_2d::<A>,
            (&first, arithmetic),
            result,
        ),
        Operation::Broadcast(shape) => exists|target: Vec<usize>|
            target@ == shape@ && #[trigger] call_ensures(
                Tensor::<T>::broadcast_to::<A>,
                (&first, target, arithmetic),
                result,
            ),
        Operation::RmsNorm { epsilon } => call_ensures(
            Tensor::<T>::rms_norm::<A>,
            (&first, epsilon, arithmetic),
            result,
        ),
        Operation::RmsNormWeighted { epsilon } => call_ensures(
            Tensor::<T>::rms_norm_with_weight::<A>,
            (&first, &second, epsilon, arithmetic),
            result,
        ),
        Operation::Scale { factor } => call_ensures(
            Tensor::<T>::scale::<A>,
            (&first, factor, arithmetic),
            result,
        ),
        Operation::Silu => call_ensures(Tensor::<T>::silu::<A>, (&first, arithmetic), result),
        Operation::SoftmaxLastDim => call_ensures(
            Tensor::<T>::softmax_last_dim::<A>,
            (&first, arithmetic),
            result,
        ),
        Operation::Rotary { rotary_dimension, position, frequency_base } => call_ensures(
            Tensor::<T>::rotary_embedding::<A>,
            (&first, rotary_dimension, position, frequency_base, arithmetic),
            result,
        ),
        Operation::Attention { scale, causal } => call_ensures(
            Tensor::<T>::scaled_dot_product_attention::<A>,
            (&first, &second, &third, scale, causal, arithmetic),
            result,
        ),
        Operation::Unary(kernel) => call_ensures(K::apply_one, (kernels, &kernel, &first), result),
        Operation::Binary(kernel) => call_ensures(
            K::apply_two,
            (kernels, &kernel, &first, &second),
            result,
        ),
    }
}

/// `values` are those of the first nodes.
pub open spec fn values_hold<T: Copy, S, A: Arithmetic<T>, K: Kernels<T, S>>(
    arithmetic: &A,
    kernels: &K,
    nodes: Seq<Node<T, S>>,
    inputs: Seq<Tensor<T>>,
    values: Seq<Tensor<T>>,
) -> bool {
    &&& values.len() <= nodes.len()
    &&& forall|i: int|
        0 <= i < values.len() ==> node_result(
            arithmetic,
            kernels,
            nodes[i],
            inputs,
            values.take(i),
            Ok(#[trigger] values[i]),
        )
}

/// The first node that yields no value gives `fault`.
pub open spec fn evaluation_stops<T: Copy, S, A: Arithmetic<T>, K: Kernels<T, S>>(
    arithmetic: &A,
    kernels: &K,
    nodes: Seq<Node<T, S>>,
    inputs: Seq<Tensor<T>>,
    fault: TensorFault,
) -> bool {
    exists|values: Seq<Tensor<T>>, error: TensorError|
        {
            &&& #[trigger] values_hold(arithmetic, kernels, nodes, inputs, values)
            &&& values.len() < nodes.len()
            &&& #[trigger] node_result(
                arithmetic,
                kernels,
                nodes[values.len() as int],
                inputs,
                values,
                Err::<Tensor<T>, TensorError>(error),
            )
            &&& error@ == fault
        }
}

/// The shape of an input differs from the one that was declared.
pub open spec fn shape_differs<T, S>(node: Node<T, S>, inputs: Seq<Tensor<T>>) -> bool {
    node.operation matches Operation::Input { index, shape } && inputs[index as int]@.shape
        != shape@
}

/// The first input whose shape differs gives `fault`.
pub open spec fn input_refused<T, S>(
    nodes: Seq<Node<T, S>>,
    inputs: Seq<Tensor<T>>,
    fault: GraphFault,
) -> bool {
    exists|at: int|
        {
            &&& 0 <= at < nodes.len()
            &&& #[trigger] shape_differs(nodes[at], inputs)
            &&& forall|i: int| 0 <= i < at ==> !#[trigger] shape_differs(nodes[i], inputs)
            &&& nodes[at].operation matches Operation::Input { index, shape } && fault
                == (GraphFault::InputShape {
                index: index as nat,
                expected: shape@,
                actual: inputs[index as int]@.shape,
            })
        }
}

/// All inputs have the shapes that were declared.
pub open spec fn inputs_accepted<T, S>(nodes: Seq<Node<T, S>>, inputs: Seq<Tensor<T>>) -> bool {
    forall|i: int| 0 <= i < nodes.len() ==> !#[trigger] shape_differs(nodes[i], inputs)
}

/// The values of requested handles, up to the first that is not in the graph.
pub open spec fn outputs_hold<T>(
    outputs: Seq<ValueId>,
    values: Seq<Tensor<T>>,
    results: Seq<Tensor<T>>,
) -> bool {
    &&& results.len() <= outputs.len()
    &&& forall|i: int|
        0 <= i < results.len() ==> output_holds(outputs[i], values, #[trigger] results[i])
}

/// The value of a requested handle.
pub open spec fn output_holds<T>(
    output: ValueId,
    values: Seq<Tensor<T>>,
    result: Tensor<T>,
) -> bool {
    &&& output@ < values.len()
    &&& result@ == values[output@ as int]@
}

/// How a request for an evaluation is answered.
pub open spec fn evaluation_answer<T: Copy, S, A: Arithmetic<T>, K: Kernels<T, S>>(
    arithmetic: &A,
    kernels: &K,
    nodes: Seq<Node<T, S>>,
    inputs: Seq<Tensor<T>>,
    outputs: Seq<ValueId>,
    result: Result<Vec<Tensor<T>>, GraphError>,
) -> bool {
    let expected = node::inputs_before(nodes, nodes.len());
    if outputs.len() == 0 {
        result matches Err(error) && error@ == GraphFault::NoOutputs
    } else if inputs.len() != expected {
        result matches Err(error) && error@ == (GraphFault::InputCount {
            expected,
            actual: inputs.len(),
        })
    } else if !inputs_accepted(nodes, inputs) {
        result matches Err(error) && input_refused(nodes, inputs, error@)
    } else {
        match result {
            Ok(results) => exists|values: Seq<Tensor<T>>|
                {
                    &&& #[trigger] values_hold(arithmetic, kernels, nodes, inputs, values)
                    &&& values.len() == nodes.len()
                    &&& outputs_hold(outputs, values, results@)
                    &&& results@.len() == outputs.len()
                },
            Err(error) => {
                ||| error@ matches GraphFault::Tensor(fault) && evaluation_stops(
                    arithmetic,
                    kernels,
                    nodes,
                    inputs,
                    fault,
                )
                ||| output_missing(arithmetic, kernels, nodes, inputs, outputs, error@)
            },
        }
    }
}

/// The graph can be evaluated, but the first handle that is not in it gives
/// `fault`.
pub open spec fn output_missing<T: Copy, S, A: Arithmetic<T>, K: Kernels<T, S>>(
    arithmetic: &A,
    kernels: &K,
    nodes: Seq<Node<T, S>>,
    inputs: Seq<Tensor<T>>,
    outputs: Seq<ValueId>,
    fault: GraphFault,
) -> bool {
    &&& exists|values: Seq<Tensor<T>>| #[trigger]
        values_hold(arithmetic, kernels, nodes, inputs, values) && values.len() == nodes.len()
    &&& exists|at: int|
        {
            &&& 0 <= at < outputs.len()
            &&& fault == GraphFault::InvalidValue((#[trigger] outputs[at])@)
            &&& outputs[at]@ >= nodes.len()
            &&& forall|i: int| 0 <= i < at ==> (#[trigger] outputs[i])@ < nodes.len()
        }
}

/// Inputs are numbered below their count.
proof fn lemma_input_number<T, S>(nodes: Seq<Node<T, S>>, at: nat, count: nat)
    requires
        at < count <= nodes.len(),
        nodes[at as int].operation is Input,
    ensures
        node::inputs_before(nodes, at) < node::inputs_before(nodes, count),
    decreases count,
{
    if at < count - 1 {
        lemma_input_number(nodes, at, (count - 1) as nat);
    }
}

/// Computes the value of a node.
fn evaluate_node<T: Copy, S, A: Arithmetic<T>, K: Kernels<T, S>>(
    arithmetic: &A,
    kernels: &K,
    node: &Node<T, S>,
    inputs: &[Tensor<T>],
    values: &Vec<Tensor<T>>,
) -> (result: Result<Tensor<T>, TensorError>)
    requires
        node::node_valid(*node, values@.len()),
        node.operation matches Operation::Input { index, .. } ==> index < inputs@.len(),
    ensures
        node_result(arithmetic, kernels, *node, inputs@, values@, result),
{
    let operands = &node.inputs;
    assert(forall|i: int| 0 <= i < operands@.len() ==> (#[trigger] operands@[i])@ < values@.len());
    match &node.operation {
        Operation::Input { index, .. } => Ok(inputs[*index].clone()),
        Operation::Constant(tensor) => Ok(tensor.clone()),
        Operation::Add => values[operands[0].index()].add(
            &values[operands[1].index()],
            arithmetic,
        ),
        Operation::Multiply => values[operands[0].index()].mul(
            &values[operands[1].index()],
            arithmetic,
        ),
        Operation::Matmul => values[operands[0].index()].matmul(
            &values[operands[1].index()],
            arithmetic,
        ),
        Operation::Reshape(shape) => values[operands[0].index()].clone().reshape(
            dense::copy_shape(shape),
        ),
        Operation::Transpose2d => values[operands[0].index()].transpose_2d(arithmetic),
        Operation::Broadcast(shape) => values[operands[0].index()].broadcast_to(
            dense::copy_shape(shape),
            arithmetic,
        ),
        Operation::RmsNorm { epsilon } => values[operands[0].index()].rms_norm(
            *epsilon,
            arithmetic,
        ),
        Operation::RmsNormWeighted { epsilon } => values[operands[0].index()].rms_norm_with_weight(
            &values[operands[1].index()],
            *epsilon,
            arithmetic,
        ),
        Operation::Scale { factor } => values[operands[0].index()].scale(*factor, arithmetic),
        Operation::Silu => values[operands[0].index()].silu(arithmetic),
        Operation::SoftmaxLastDim => values[operands[0].index()].softmax_last_dim(arithmetic),
        Operation::Rotary { rotary_dimension, position, frequency_base } => values[
            operands[0].index()
        ].rotary_embedding(*rotary_dimension, *position, *frequency_base, arithmetic),
        Operation::Attention { scale, causal } => values[
            operands[0].index()
        ].scaled_dot_product_attention(
            &values[operands[1].index()],
            &values[operands[2].index()],
            *scale,
            *causal,
            arithmetic,
        ),
        Operation::Unary(kernel) => kernels.apply_one(kernel, &values[operands[0].index()]),
        Operation::Binary(kernel) => kernels.apply_two(
            kernel,
            &values[operands[0].index()],
            &values[operands[1].index()],
        ),
    }
}

/// Checks the shapes of the inputs.
fn check_inputs<T: Copy, S>(nodes: &Vec<Node<T, S>>, inputs: &[Tensor<T>]) -> (result: Result<
    (),
    GraphError,
>)
    requires
        node::nodes_valid(nodes@),
        inputs@.len() == node::inputs_before(nodes@, nodes@.len()),
    ensures
        match result {
            Ok(()) => inputs_accepted(nodes@, inputs@),
            Err(error) => !inputs_accepted(nodes@, inputs@) && input_refused(
                nodes@,
                inputs@,
                error@,
            ),
        },
{
    let mut i: usize = 0;
    while i < nodes.len()
        invariant
            i <= nodes@.len(),
            node::nodes_valid(nodes@),
            inputs@.len() == node::inputs_before(nodes@, nodes@.len()),
            forall|k: int| 0 <= k < i ==> !#[trigger] shape_differs(nodes@[k], inputs@),
        decreases nodes@.len() - i,
    {
        if let Operation::Input { index, shape } = &nodes[i].operation {
            proof {
                assert(node::placed(nodes@, i as int));
                lemma_input_number(nodes@, i as nat, nodes@.len());
            }
            let actual = inputs[*index].dimensions();
            if !dense::same_shape(actual, shape) {
                assert(shape_differs(nodes@[i as int], inputs@));
                return Err(
                    GraphError::InputShape {
                        index: *index,
                        expected: dense::copy_shape(shape),
                        actual: dense::copy_shape(actual),
                    },
                );
            }
        }
        i += 1;
    }
    Ok(())
}

/// One more value follows those of the nodes before it.
proof fn lemma_value_added<T: Copy, S, A: Arithmetic<T>, K: Kernels<T, S>>(
    arithmetic: &A,
    kernels: &K,
    nodes: Seq<Node<T, S>>,
    inputs: Seq<Tensor<T>>,
    values: Seq<Tensor<T>>,
    value: Tensor<T>,
)
    requires
        values_hold(arithmetic, kernels, nodes, inputs, values),
        values.len() < nodes.len(),
        node_result(
            arithmetic,
            kernels,
            nodes[values.len() as int],
            inputs,
            values,
            Ok(value),
        ),
    ensures
        values_hold(arithmetic, kernels, nodes, inputs, values.push(value)),
{
    let longer = values.push(value);
    assert forall|i: int| 0 <= i < longer.len() implies node_result(
        arithmetic,
        kernels,
        nodes[i],
        inputs,
        longer.take(i),
        Ok(#[trigger] longer[i]),
    ) by {
        assert(longer.take(i) =~= values.take(i));
        if i == values.len() {
            assert(values.take(i) =~= values);
        } else {
            assert(longer[i] == values[i]);
        }
    }
}

impl<T: Copy, S> Graph<T, S> {
    /// Evaluates requested graph values.
    ///
    /// Inputs are supplied in the order in which [`Graph::input`] was called.
    /// Values are evaluated once in insertion order, so shared subgraphs are
    /// not recomputed. Operations that the tensor engine does not have are left
    /// to `kernels`.
    pub fn evaluate<A: Arithmetic<T>, K: Kernels<T, S>>(
        &self,
        inputs: &[Tensor<T>],
        outputs: &[ValueId],
        arithmetic: &A,
        kernels: &K,
    ) -> (result: Result<Vec<Tensor<T>>, GraphError>)
        ensures
            evaluation_answer(arithmetic, kernels, self@, inputs@, outputs@, result),
    {
        if outputs.len() == 0 {
            return Err(GraphError::NoOutputs);
        }
        let nodes = self.nodes();
        let expected: usize = node::count_inputs(nodes);
        if inputs.len() != expected {
            return Err(GraphError::InputCount { expected, actual: inputs.len() });
        }
        check_inputs(nodes, inputs)?;
        let values = match evaluate_nodes(arithmetic, kernels, nodes, inputs) {
            Ok(values) => values,
            Err(error) => {
                return Err(GraphError::Tensor(error));
            },
        };
        let mut results: Vec<Tensor<T>> = Vec::new();
        let mut i: usize = 0;
        while i < outputs.len()
            invariant
                i <= outputs@.len(),
                outputs@.len() > 0,
                inputs@.len() == node::inputs_before(self@, self@.len()),
                inputs_accepted(self@, inputs@),
                values_hold(arithmetic, kernels, self@, inputs@, values@),
                values@.len() == self@.len(),
                outputs_hold(outputs@, values@, results@),
                results@.len() == i,
            decreases outputs@.len() - i,
        {
            let output = outputs[i];
            if output.index() >= values.len() {
                let error = GraphError::InvalidValue(output);
                proof {
                    assert(error@ == GraphFault::InvalidValue(outputs@[i as int]@));
                    assert forall|k: int| 0 <= k < i implies (#[trigger] outputs@[k])@
                        < self@.len() by {
                        assert(output_holds(outputs@[k], values@, results@[k]));
                    }
                    assert(output_missing(
                        arithmetic,
                        kernels,
                        self@,
                        inputs@,
                        outputs@,
                        error@,
                    ));
                }
                return Err(error);
            }
            results.push(values[output.index()].clone());
            i += 1;
        }
        Ok(results)
    }
}

/// Computes the values of all nodes.
fn evaluate_nodes<T: Copy, S, A: Arithmetic<T>, K: Kernels<T, S>>(
    arithmetic: &A,
    kernels: &K,
    nodes: &Vec<Node<T, S>>,
    inputs: &[Tensor<T>],
) -> (result: Result<Vec<Tensor<T>>, TensorError>)
    requires
        node::nodes_valid(nodes@),
        inputs@.len() == node::inputs_before(nodes@, nodes@.len()),
    ensures
        match result {
            Ok(values) => {
                &&& values_hold(arithmetic, kernels, nodes@, inputs@, values@)
                &&& values@.len() == nodes@.len()
            },
            Err(error) => evaluation_stops(arithmetic, kernels, nodes@, inputs@, error@),
        },
{
    let mut values: Vec<Tensor<T>> = Vec::new();
    let mut i: usize = 0;
    while i < nodes.len()
        invariant
            i <= nodes@.len(),
            node::nodes_valid(nodes@),
            inputs@.len() == node::inputs_before(nodes@, nodes@.len()),
            values@.len() == i,
            values_hold(arithmetic, kernels, nodes@, inputs@, values@),
        decreases nodes@.len() - i,
    {
        proof {
            assert(node::placed(nodes@, i as int));
            if nodes@[i as int].operation is Input {
                lemma_input_number(nodes@, i as nat, nodes@.len());
            }
        }
        match evaluate_node(arithmetic, kernels, &nodes[i], inputs, &values) {
            Ok(value) => {
                proof {
                    lemma_value_added(arithmetic, kernels, nodes@, inputs@, values@, value);
                }
                values.push(value);
            },
            Err(error) => {
                assert(evaluation_stops(arithmetic, kernels, nodes@, inputs@, error@));
                return Err(error);
            },
        }
        i += 1;
    }
    Ok(values)
}

} // verus!
