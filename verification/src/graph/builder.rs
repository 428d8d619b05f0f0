//! Construction of graphs.

use vstd::prelude::*;

use crate::graph::error::{GraphError, GraphFault};
use crate::graph::node;
use crate::graph::node::{BinaryKernel, Node, Operation, UnaryKernel, ValueId};
use crate::tensor::arithmetic::Arithmetic;
use crate::tensor::dense::Tensor;
use crate::tensor::error::{TensorError, TensorFault};
use crate::tensor::shape;

verus! {

/// A compact insertion-ordered tensor graph.
#[derive(Debug)]
pub struct Graph<T, S> {
    nodes: Vec<Node<T, S>>,
}

impl<T, S> View for Graph<T, S> {
    type V = Seq<Node<T, S>>;

    closed spec fn view(&self) -> Seq<Node<T, S>> {
        self.nodes@
    }
}

/// The first of some handles that is not in a graph of `count` nodes.
pub open spec fn first_invalid(values: Seq<ValueId>, count: nat) -> Option<nat>
    decreases values.len(),
{
    if values.len() == 0 {
        None
    } else if values[0]@ >= count {
        Some(values[0]@)
    } else {
        first_invalid(values.drop_first(), count)
    }
}

/// A graph has grown by one node, and `value` is the handle to it.
pub open spec fn grown<T, S>(
    before: Seq<Node<T, S>>,
    after: Seq<Node<T, S>>,
    operation: Operation<T, S>,
    inputs: Seq<ValueId>,
    value: ValueId,
) -> bool {
    &&& after.len() == before.len() + 1
    &&& before.is_prefix_of(after)
    &&& after.last().operation == operation
    &&& after.last().inputs@ == inputs
    &&& value@ == before.len()
}

/// A graph has grown by one node, or stays as it is if a handle is not in it.
pub open spec fn built<T, S>(
    before: Seq<Node<T, S>>,
    after: Seq<Node<T, S>>,
    operation: Operation<T, S>,
    inputs: Seq<ValueId>,
    result: Result<ValueId, GraphError>,
) -> bool {
    match first_invalid(inputs, before.len()) {
        Some(value) => {
            &&& result matches Err(error) && error@ == GraphFault::InvalidValue(value)
            &&& after == before
        },
        None => result matches Ok(value) && grown(before, after, operation, inputs, value),
    }
}

/// The same for an operation that has a shape, which is checked behind the
/// handles.
pub open spec fn built_with_shape<T, S>(
    before: Seq<Node<T, S>>,
    after: Seq<Node<T, S>>,
    operation: Operation<T, S>,
    inputs: Seq<ValueId>,
    shape: Seq<usize>,
    result: Result<ValueId, GraphError>,
) -> bool {
    if first_invalid(inputs, before.len()) is None && shape::shape_fault(shape) is Some {
        &&& result matches Err(error) && error@ == GraphFault::Tensor(
            shape::shape_fault(shape)->0,
        )
        &&& after == before
    } else {
        built(before, after, operation, inputs, result)
    }
}

/// The bounds of a clamp are finite, and the lower one does not exceed the upper.
pub open spec fn bounds_accepted<T, A: Arithmetic<T>>(
    arithmetic: &A,
    minimum: T,
    maximum: T,
) -> bool {
    &&& call_ensures(A::is_finite, (arithmetic, minimum), true)
    &&& call_ensures(A::is_finite, (arithmetic, maximum), true)
    &&& call_ensures(A::exceeds, (arithmetic, minimum, maximum), false)
}

/// A bound of a clamp is not finite, or the lower one exceeds the upper.
pub open spec fn bounds_refused<T, A: Arithmetic<T>>(
    arithmetic: &A,
    minimum: T,
    maximum: T,
) -> bool {
    ||| call_ensures(A::is_finite, (arithmetic, minimum), false)
    ||| call_ensures(A::is_finite, (arithmetic, maximum), false)
    ||| call_ensures(A::exceeds, (arithmetic, minimum, maximum), true)
}

/// Checks the shape of a tensor that is yet to come.
fn check_shape(shape: &Vec<usize>) -> (result: Result<(), TensorError>)
    ensures
        match result {
            Ok(()) => shape::shape_fault(shape@) is None,
            Err(error) => shape::shape_fault(shape@) == Some(error@),
        },
{
    shape::validate_shape(shape.as_slice())?;
    match shape::element_count(shape.as_slice()) {
        Ok(_) => Ok(()),
        Err(error) => Err(error),
    }
}

impl<T, S> Default for Graph<T, S> {
    fn default() -> (graph: Self)
        ensures
            graph@.len() == 0,
    {
        Graph { nodes: Vec::new() }
    }
}

impl<T: Copy, S: Copy> Clone for Graph<T, S> {
    fn clone(&self) -> (copy: Self)
        ensures
            copy@.len() == self@.len(),
            forall|i: int|
                0 <= i < self@.len() ==> node::nodes_alike(self@[i], #[trigger] copy@[i]),
    {
        proof {
            use_type_invariant(self);
        }
        let mut nodes: Vec<Node<T, S>> = Vec::new();
        let mut i: usize = 0;
        while i < self.nodes.len()
            invariant
                i <= self.nodes@.len(),
                nodes@.len() == i,
                node::nodes_valid(self.nodes@),
                forall|k: int|
                    0 <= k < i ==> node::nodes_alike(self.nodes@[k], #[trigger] nodes@[k]),
            decreases self.nodes@.len() - i,
        {
            nodes.push(self.nodes[i].clone());
            i += 1;
        }
        proof {
            assert forall|k: int| 0 <= k < nodes@.len() implies #[trigger] node::placed(
                nodes@,
                k,
            ) by {
                assert(node::placed(self.nodes@, k));
                assert(node::nodes_alike(self.nodes@[k], nodes@[k]));
                node::lemma_alike_inputs(self.nodes@, nodes@, k as nat);
            }
        }
        Graph { nodes }
    }
}

impl<T, S> Graph<T, S> {
    #[verifier::type_invariant]
    spec fn well_formed(self) -> bool {
        node::nodes_valid(self.nodes@)
    }

    /// Creates an empty graph.
    pub fn new() -> (graph: Self)
        ensures
            graph@.len() == 0,
    {
        Graph { nodes: Vec::new() }
    }

    pub(crate) fn nodes(&self) -> (nodes: &Vec<Node<T, S>>)
        ensures
            nodes@ == self@,
            node::nodes_valid(self@),
    {
        proof {
            use_type_invariant(self);
        }
        &self.nodes
    }

    /// Returns the number of graph nodes.
    pub fn len(&self) -> (len: usize)
        ensures
            len == self@.len(),
    {
        self.nodes.len()
    }

    /// Returns whether the graph contains no nodes.
    pub fn is_empty(&self) -> (empty: bool)
        ensures
            empty == (self@.len() == 0),
    {
        self.nodes.len() == 0
    }

    fn push(&mut self, operation: Operation<T, S>, inputs: Vec<ValueId>) -> (value: ValueId)
        requires
            node::node_valid((Node { operation, inputs }), old(self)@.len()),
            operation matches Operation::Input { index, .. } ==> index == node::inputs_before(
                old(self)@,
                old(self)@.len(),
            ),
        ensures
            grown(old(self)@, final(self)@, operation, inputs@, value),
    {
        proof {
            use_type_invariant(&*self);
        }
        let value = ValueId::new(self.nodes.len());
        let mut nodes: Vec<Node<T, S>> = Vec::new();
        std::mem::swap(&mut nodes, &mut self.nodes);
        let ghost before = nodes@;
        nodes.push(Node { operation, inputs });
        proof {
            assert forall|i: int| 0 <= i < nodes@.len() implies #[trigger] node::placed(
                nodes@,
                i,
            ) by {
                node::lemma_inputs_before(before, nodes@, i as nat);
                if i < before.len() {
                    assert(node::placed(before, i));
                }
            }
        }
        self.nodes = nodes;
        value
    }

    fn require(&self, value: ValueId) -> (result: Result<(), GraphError>)
        ensures
            match result {
                Ok(()) => value@ < self@.len(),
                Err(error) => value@ >= self@.len() && error@ == GraphFault::InvalidValue(value@),
            },
    {
        if value.index() < self.nodes.len() {
            Ok(())
        } else {
            Err(GraphError::InvalidValue(value))
        }
    }

    fn unary(&mut self, operation: Operation<T, S>, input: ValueId) -> (result: Result<
        ValueId,
        GraphError,
    >)
        requires
            node::arity(operation) == 1,
        ensures
            built(old(self)@, final(self)@, operation, seq![input], result),
    {
        proof {
            reveal_with_fuel(first_invalid, 2);
            assert(seq![input].drop_first() =~= seq![]);
        }
        self.require(input)?;
        let mut inputs: Vec<ValueId> = Vec::new();
        inputs.push(input);
        assert(inputs@ =~= seq![input]);
        Ok(self.push(operation, inputs))
    }

    fn binary(
        &mut self,
        operation: Operation<T, S>,
        left: ValueId,
        right: ValueId,
    ) -> (result: Result<ValueId, GraphError>)
        requires
            node::arity(operation) == 2,
        ensures
            built(old(self)@, final(self)@, operation, seq![left, right], result),
    {
        proof {
            reveal_with_fuel(first_invalid, 3);
            assert(seq![left, right].drop_first() =~= seq![right]);
            assert(seq![right].drop_first() =~= seq![]);
        }
        self.require(left)?;
        self.require(right)?;
        let mut inputs: Vec<ValueId> = Vec::new();
        inputs.push(left);
        inputs.push(right);
        assert(inputs@ =~= seq![left, right]);
        Ok(self.push(operation, inputs))
    }

    /// Adds a typed graph input.
    pub fn input(&mut self, shape: Vec<usize>) -> (result: Result<ValueId, GraphError>)
        ensures
            match shape::shape_fault(shape@) {
                Some(fault) => {
                    &&& result matches Err(error) && error@ == GraphFault::Tensor(fault)
                    &&& final(self)@ == old(self)@
                },
                None => {
                    &&& result matches Ok(value) && grown(
                        old(self)@,
                        final(self)@,
                        final(self)@.last().operation,
                        seq![],
                        value,
                    )
                    &&& final(self)@.last().operation matches Operation::Input {
                        index,
                        shape: declared,
                    } && index == node::inputs_before(old(self)@, old(self)@.len()) && declared
                        == shape
                },
            },
    {
        if let Err(error) = check_shape(&shape) {
            return Err(GraphError::Tensor(error));
        }
        let index: usize = node::count_inputs(&self.nodes);
        let inputs: Vec<ValueId> = Vec::new();
        Ok(self.push(Operation::Input { index, shape }, inputs))
    }

    /// Adds an owned constant tensor.
    pub fn constant(&mut self, tensor: Tensor<T>) -> (value: ValueId)
        ensures
            grown(old(self)@, final(self)@, Operation::Constant(tensor), seq![], value),
    {
        self.push(Operation::Constant(tensor), Vec::new())
    }

    /// Adds elementwise addition.
    pub fn add(&mut self, left: ValueId, right: ValueId) -> (result: Result<
        ValueId,
        GraphError,
    >)
        ensures
            built(
                old(self)@,
                final(self)@,
                Operation::Add,
                seq![left, right],
                result,
            ),
    {
        self.binary(Operation::Add, left, right)
    }

    /// Adds an elementwise maximum node with broadcasting.
    pub fn maximum(&mut self, left: ValueId, right: ValueId) -> (result: Result<
        ValueId,
        GraphError,
    >)
        ensures
            built(
                old(self)@,
                final(self)@,
                Operation::Binary(BinaryKernel::Maximum),
                seq![left, right],
                result,
            ),
    {
        self.binary(Operation::Binary(BinaryKernel::Maximum), left, right)
    }

    /// Adds an elementwise minimum node with broadcasting.
    pub fn minimum(&mut self, left: ValueId, right: ValueId) -> (result: Result<
        ValueId,
        GraphError,
    >)
        ensures
            built(
                old(self)@,
                final(self)@,
                Operation::Binary(BinaryKernel::Minimum),
                seq![left, right],
                result,
            ),
    {
        self.binary(Operation::Binary(BinaryKernel::Minimum), left, right)
    }

    /// Adds elementwise multiplication.
    pub fn multiply(&mut self, left: ValueId, right: ValueId) -> (result: Result<
        ValueId,
        GraphError,
    >)
        ensures
            built(
                old(self)@,
                final(self)@,
                Operation::Multiply,
                seq![left, right],
                result,
            ),
    {
        self.binary(Operation::Multiply, left, right)
    }

    /// Adds elementwise subtraction.
    pub fn subtract(&mut self, left: ValueId, right: ValueId) -> (result: Result<
        ValueId,
        GraphError,
    >)
        ensures
            built(
                old(self)@,
                final(self)@,
                Operation::Binary(BinaryKernel::Subtract),
                seq![left, right],
                result,
            ),
    {
        self.binary(Operation::Binary(BinaryKernel::Subtract), left, right)
    }

    /// Adds elementwise division.
    pub fn divide(&mut self, left: ValueId, right: ValueId) -> (result: Result<
        ValueId,
        GraphError,
    >)
        ensures
            built(
                old(self)@,
                final(self)@,
                Operation::Binary(BinaryKernel::Divide),
                seq![left, right],
                result,
            ),
    {
        self.binary(Operation::Binary(BinaryKernel::Divide), left, right)
    }

    /// Adds a matrix multiplication node.
    pub fn matmul(&mut self, left: ValueId, right: ValueId) -> (result: Result<
        ValueId,
        GraphError,
    >)
        ensures
            built(
                old(self)@,
                final(self)@,
                Operation::Matmul,
                seq![left, right],
                result,
            ),
    {
        self.binary(Operation::Matmul, left, right)
    }

    /// Adds a reshape node.
    pub fn reshape(&mut self, input: ValueId, shape: Vec<usize>) -> (result: Result<
        ValueId,
        GraphError,
    >)
        ensures
            built_with_shape(
                old(self)@,
                final(self)@,
                Operation::Reshape(shape),
                seq![input],
                shape@,
                result,
            ),
    {
        proof {
            reveal_with_fuel(first_invalid, 2);
            assert(seq![input].drop_first() =~= seq![]);
        }
        self.require(input)?;
        if let Err(error) = check_shape(&shape) {
            return Err(GraphError::Tensor(error));
        }
        self.unary(Operation::Reshape(shape), input)
    }

    /// Adds a rank-2 transpose node.
    pub fn transpose_2d(&mut self, input: ValueId) -> (result: Result<ValueId, GraphError>)
        ensures
            built(
                old(self)@,
                final(self)@,
                Operation::Transpose2d,
                seq![input],
                result,
            ),
    {
        self.unary(Operation::Transpose2d, input)
    }

    /// Adds an arbitrary-rank axis permutation node.
    ///
    /// `axes[i]` identifies the source axis that becomes output axis `i`. The
    /// rank is checked during evaluation.
    pub fn permute(
        &mut self,
        input: ValueId,
        axes: Vec<usize>,
    ) -> (result: Result<ValueId, GraphError>)
        ensures
            built(
                old(self)@,
                final(self)@,
                Operation::Unary(UnaryKernel::Permute(axes)),
                seq![input],
                result,
            ),
    {
        self.unary(Operation::Unary(UnaryKernel::Permute(axes)), input)
    }

    /// Adds a positive-stride slice node.
    ///
    /// Axes not listed are copied in full with stride one. Bounds and output
    /// dimensions are checked during evaluation.
    pub fn slice(
        &mut self,
        input: ValueId,
        starts: Vec<usize>,
        ends: Vec<usize>,
        axes: Vec<usize>,
        strides: Vec<usize>,
    ) -> (result: Result<ValueId, GraphError>)
        ensures
            built(
                old(self)@,
                final(self)@,
                Operation::Unary(UnaryKernel::Slice { starts, ends, axes, strides }),
                seq![input],
                result,
            ),
    {
        self.unary(Operation::Unary(UnaryKernel::Slice { starts, ends, axes, strides }), input)
    }

    /// Adds a slice-update node that returns a new tensor.
    ///
    /// The update tensor must match the selected region, which is checked
    /// during evaluation.
    pub fn slice_update(
        &mut self,
        input: ValueId,
        update: ValueId,
        starts: Vec<usize>,
        ends: Vec<usize>,
        axes: Vec<usize>,
        strides: Vec<usize>,
    ) -> (result: Result<ValueId, GraphError>)
        ensures
            built(
                old(self)@,
                final(self)@,
                Operation::Binary(BinaryKernel::SliceUpdate { starts, ends, axes, strides }),
                seq![input, update],
                result,
            ),
    {
        self.binary(
            Operation::Binary(BinaryKernel::SliceUpdate { starts, ends, axes, strides }),
            input,
            update,
        )
    }

    /// Adds a row-gather node for embedding and lookup tables.
    pub fn gather_rows(&mut self, input: ValueId, indices: Vec<usize>) -> (result: Result<
        ValueId,
        GraphError,
    >)
        ensures
            if input@ < old(self)@.len() && indices@.len() == 0 {
                &&& result matches Err(error) && error@ == GraphFault::Tensor(
                    TensorFault::ZeroDimension,
                )
                &&& final(self)@ == old(self)@
            } else {
                built(
                    old(self)@,
                    final(self)@,
                    Operation::Unary(UnaryKernel::GatherRows(indices)),
                    seq![input],
                    result,
                )
            },
    {
        proof {
            reveal_with_fuel(first_invalid, 2);
            assert(seq![input].drop_first() =~= seq![]);
        }
        self.require(input)?;
        if indices.len() == 0 {
            return Err(GraphError::Tensor(TensorError::ZeroDimension));
        }
        self.unary(Operation::Unary(UnaryKernel::GatherRows(indices)), input)
    }

    /// Adds a concatenation node along one axis.
    ///
    /// Input rank and axis compatibility are checked during evaluation.
    pub fn concatenate(&mut self, left: ValueId, right: ValueId, axis: usize) -> (result: Result<
        ValueId,
        GraphError,
    >)
        ensures
            built(
                old(self)@,
                final(self)@,
                Operation::Binary(BinaryKernel::Concatenate { axis }),
                seq![left, right],
                result,
            ),
    {
        self.binary(Operation::Binary(BinaryKernel::Concatenate { axis }), left, right)
    }

    /// Adds a right-aligned broadcast node.
    pub fn broadcast_to(&mut self, input: ValueId, shape: Vec<usize>) -> (result: Result<
        ValueId,
        GraphError,
    >)
        ensures
            built_with_shape(
                old(self)@,
                final(self)@,
                Operation::Broadcast(shape),
                seq![input],
                shape@,
                result,
            ),
    {
        proof {
            reveal_with_fuel(first_invalid, 2);
            assert(seq![input].drop_first() =~= seq![]);
        }
        self.require(input)?;
        if let Err(error) = check_shape(&shape) {
            return Err(GraphError::Tensor(error));
        }
        self.unary(Operation::Broadcast(shape), input)
    }

    /// Adds an `RMSNorm` node.
    pub fn rms_norm(&mut self, input: ValueId, epsilon: T) -> (result: Result<ValueId, GraphError>)
        ensures
            built(
                old(self)@,
                final(self)@,
                Operation::RmsNorm { epsilon },
                seq![input],
                result,
            ),
    {
        self.unary(Operation::RmsNorm { epsilon }, input)
    }

    /// Adds a weighted `RMSNorm` node.
    ///
    /// The weight must evaluate to a rank-1 tensor whose length matches the
    /// input's final dimension.
    pub fn rms_norm_with_weight(&mut self, input: ValueId, weight: ValueId, epsilon: T) -> (result:
        Result<ValueId, GraphError>)
        ensures
            built(
                old(self)@,
                final(self)@,
                Operation::RmsNormWeighted { epsilon },
                seq![input, weight],
                result,
            ),
    {
        self.binary(Operation::RmsNormWeighted { epsilon }, input, weight)
    }

    /// Adds a scalar multiplication node.
    pub fn scale(&mut self, input: ValueId, factor: T) -> (result: Result<ValueId, GraphError>)
        ensures
            built(
                old(self)@,
                final(self)@,
                Operation::Scale { factor },
                seq![input],
                result,
            ),
    {
        self.unary(Operation::Scale { factor }, input)
    }

    /// Adds an elementwise negation node.
    pub fn negate(&mut self, input: ValueId) -> (result: Result<ValueId, GraphError>)
        ensures
            built(
                old(self)@,
                final(self)@,
                Operation::Unary(UnaryKernel::Negate),
                seq![input],
                result,
            ),
    {
        self.unary(Operation::Unary(UnaryKernel::Negate), input)
    }

    /// Adds an elementwise absolute-value node.
    pub fn absolute(&mut self, input: ValueId) -> (result: Result<ValueId, GraphError>)
        ensures
            built(
                old(self)@,
                final(self)@,
                Operation::Unary(UnaryKernel::Absolute),
                seq![input],
                result,
            ),
    {
        self.unary(Operation::Unary(UnaryKernel::Absolute), input)
    }

    /// Adds an elementwise square node.
    pub fn square(&mut self, input: ValueId) -> (result: Result<ValueId, GraphError>)
        ensures
            built(
                old(self)@,
                final(self)@,
                Operation::Unary(UnaryKernel::Square),
                seq![input],
                result,
            ),
    {
        self.unary(Operation::Unary(UnaryKernel::Square), input)
    }

    /// Adds an elementwise square-root node.
    pub fn square_root(&mut self, input: ValueId) -> (result: Result<ValueId, GraphError>)
        ensures
            built(
                old(self)@,
                final(self)@,
                Operation::Unary(UnaryKernel::SquareRoot),
                seq![input],
                result,
            ),
    {
        self.unary(Operation::Unary(UnaryKernel::SquareRoot), input)
    }

    /// Adds an elementwise reciprocal node.
    pub fn reciprocal(&mut self, input: ValueId) -> (result: Result<ValueId, GraphError>)
        ensures
            built(
                old(self)@,
                final(self)@,
                Operation::Unary(UnaryKernel::Reciprocal),
                seq![input],
                result,
            ),
    {
        self.unary(Operation::Unary(UnaryKernel::Reciprocal), input)
    }

    /// Adds an elementwise reciprocal square-root node.
    pub fn rsqrt(&mut self, input: ValueId) -> (result: Result<ValueId, GraphError>)
        ensures
            built(
                old(self)@,
                final(self)@,
                Operation::Unary(UnaryKernel::Rsqrt),
                seq![input],
                result,
            ),
    {
        self.unary(Operation::Unary(UnaryKernel::Rsqrt), input)
    }

    /// Adds an elementwise exponential node.
    pub fn exponential(&mut self, input: ValueId) -> (result: Result<ValueId, GraphError>)
        ensures
            built(
                old(self)@,
                final(self)@,
                Operation::Unary(UnaryKernel::Exponential),
                seq![input],
                result,
            ),
    {
        self.unary(Operation::Unary(UnaryKernel::Exponential), input)
    }

    /// Adds an elementwise natural-logarithm node.
    pub fn logarithm(&mut self, input: ValueId) -> (result: Result<ValueId, GraphError>)
        ensures
            built(
                old(self)@,
                final(self)@,
                Operation::Unary(UnaryKernel::Logarithm),
                seq![input],
                result,
            ),
    {
        self.unary(Operation::Unary(UnaryKernel::Logarithm), input)
    }

    /// Adds an elementwise sine node.
    pub fn sine(&mut self, input: ValueId) -> (result: Result<ValueId, GraphError>)
        ensures
            built(
                old(self)@,
                final(self)@,
                Operation::Unary(UnaryKernel::Sine),
                seq![input],
                result,
            ),
    {
        self.unary(Operation::Unary(UnaryKernel::Sine), input)
    }

    /// Adds an elementwise cosine node.
    pub fn cosine(&mut self, input: ValueId) -> (result: Result<ValueId, GraphError>)
        ensures
            built(
                old(self)@,
                final(self)@,
                Operation::Unary(UnaryKernel::Cosine),
                seq![input],
                result,
            ),
    {
        self.unary(Operation::Unary(UnaryKernel::Cosine), input)
    }

    /// Adds an elementwise hyperbolic-tangent node.
    pub fn tanh(&mut self, input: ValueId) -> (result: Result<ValueId, GraphError>)
        ensures
            built(
                old(self)@,
                final(self)@,
                Operation::Unary(UnaryKernel::Tanh),
                seq![input],
                result,
            ),
    {
        self.unary(Operation::Unary(UnaryKernel::Tanh), input)
    }

    /// Adds an elementwise logistic-sigmoid node.
    pub fn sigmoid(&mut self, input: ValueId) -> (result: Result<ValueId, GraphError>)
        ensures
            built(
                old(self)@,
                final(self)@,
                Operation::Unary(UnaryKernel::Sigmoid),
                seq![input],
                result,
            ),
    {
        self.unary(Operation::Unary(UnaryKernel::Sigmoid), input)
    }

    /// Adds an inclusive elementwise clamp node, if the bounds are finite and the
    /// lower one does not exceed the upper.
    pub fn clamp<A: Arithmetic<T>>(
        &mut self,
        input: ValueId,
        minimum: T,
        maximum: T,
        arithmetic: &A,
    ) -> (result: Result<ValueId, GraphError>) where T: Copy
        ensures
            ({
                ||| {
                    &&& first_invalid(seq![input], old(self)@.len()) is None
                    &&& bounds_refused(arithmetic, minimum, maximum)
                    &&& result matches Err(error) && error@ == GraphFault::InvalidBounds
                    &&& final(self)@ == old(self)@
                }
                ||| {
                    &&& first_invalid(seq![input], old(self)@.len()) is None ==> bounds_accepted(
                        arithmetic,
                        minimum,
                        maximum,
                    )
                    &&& built(
                        old(self)@,
                        final(self)@,
                        Operation::Unary(UnaryKernel::Clamp { minimum, maximum }),
                        seq![input],
                        result,
                    )
                }
            }),
    {
        proof {
            reveal_with_fuel(first_invalid, 2);
            assert(seq![input].drop_first() =~= seq![]);
        }
        self.require(input)?;
        if !arithmetic.is_finite(minimum) || !arithmetic.is_finite(maximum) || arithmetic.exceeds(
            minimum,
            maximum,
        ) {
            return Err(GraphError::InvalidBounds);
        }
        self.unary(Operation::Unary(UnaryKernel::Clamp { minimum, maximum }), input)
    }

    /// Adds a `SiLU` node.
    pub fn silu(&mut self, input: ValueId) -> (result: Result<ValueId, GraphError>)
        ensures
            built(
                old(self)@,
                final(self)@,
                Operation::Silu,
                seq![input],
                result,
            ),
    {
        self.unary(Operation::Silu, input)
    }

    /// Adds a stable last-dimension softmax node.
    pub fn softmax_last_dim(&mut self, input: ValueId) -> (result: Result<ValueId, GraphError>)
        ensures
            built(
                old(self)@,
                final(self)@,
                Operation::SoftmaxLastDim,
                seq![input],
                result,
            ),
    {
        self.unary(Operation::SoftmaxLastDim, input)
    }

    /// Adds a numerically stable softmax node along one axis.
    pub fn softmax(&mut self, input: ValueId, axis: usize) -> (result: Result<ValueId, GraphError>)
        ensures
            built(
                old(self)@,
                final(self)@,
                Operation::Unary(UnaryKernel::Softmax { axis }),
                seq![input],
                result,
            ),
    {
        self.unary(Operation::Unary(UnaryKernel::Softmax { axis }), input)
    }

    /// Adds a final-dimension sum reduction.
    pub fn sum_last_dim(&mut self, input: ValueId) -> (result: Result<ValueId, GraphError>)
        ensures
            built(
                old(self)@,
                final(self)@,
                Operation::Unary(UnaryKernel::SumLastDim),
                seq![input],
                result,
            ),
    {
        self.unary(Operation::Unary(UnaryKernel::SumLastDim), input)
    }

    /// Adds a final-dimension mean reduction.
    pub fn mean_last_dim(&mut self, input: ValueId) -> (result: Result<ValueId, GraphError>)
        ensures
            built(
                old(self)@,
                final(self)@,
                Operation::Unary(UnaryKernel::MeanLastDim),
                seq![input],
                result,
            ),
    {
        self.unary(Operation::Unary(UnaryKernel::MeanLastDim), input)
    }

    /// Adds an axis-specific sum reduction node.
    pub fn sum(
        &mut self,
        input: ValueId,
        axis: usize,
        keepdims: bool,
    ) -> (result: Result<ValueId, GraphError>)
        ensures
            built(
                old(self)@,
                final(self)@,
                Operation::Unary(UnaryKernel::Sum { axis, keepdims }),
                seq![input],
                result,
            ),
    {
        self.unary(Operation::Unary(UnaryKernel::Sum { axis, keepdims }), input)
    }

    /// Adds an axis-specific mean reduction node.
    pub fn mean(
        &mut self,
        input: ValueId,
        axis: usize,
        keepdims: bool,
    ) -> (result: Result<ValueId, GraphError>)
        ensures
            built(
                old(self)@,
                final(self)@,
                Operation::Unary(UnaryKernel::Mean { axis, keepdims }),
                seq![input],
                result,
            ),
    {
        self.unary(Operation::Unary(UnaryKernel::Mean { axis, keepdims }), input)
    }

    /// Adds an inclusive cumulative sum node along one axis.
    pub fn cumsum(
        &mut self,
        input: ValueId,
        axis: usize,
        reverse: bool,
    ) -> (result: Result<ValueId, GraphError>)
        ensures
            built(
                old(self)@,
                final(self)@,
                Operation::Unary(UnaryKernel::Cumsum { axis, reverse }),
                seq![input],
                result,
            ),
    {
        self.unary(Operation::Unary(UnaryKernel::Cumsum { axis, reverse }), input)
    }

    /// Adds an interleaved rotary position embedding node.
    ///
    /// The input must evaluate to `[heads, head_dim]`; only the leading
    /// `rotary_dimension` values are rotated.
    pub fn rotary_embedding(
        &mut self,
        input: ValueId,
        rotary_dimension: usize,
        position: T,
        frequency_base: T,
    ) -> (result: Result<ValueId, GraphError>)
        ensures
            built(
                old(self)@,
                final(self)@,
                Operation::Rotary { rotary_dimension, position, frequency_base },
                seq![input],
                result,
            ),
    {
        self.unary(Operation::Rotary { rotary_dimension, position, frequency_base }, input)
    }

    /// Adds an interleaved rotary position embedding node with scaling.
    ///
    /// The input must evaluate to `[heads, head_dim]`; only the leading
    /// `rotary_dimension` values are rotated.
    pub fn rotary_embedding_with_scaling(
        &mut self,
        input: ValueId,
        rotary_dimension: usize,
        position: T,
        frequency_base: T,
        scaling: S,
    ) -> (result: Result<ValueId, GraphError>)
        ensures
            built(
                old(self)@,
                final(self)@,
                Operation::Unary(
                    UnaryKernel::Rotary { rotary_dimension, position, frequency_base, scaling },
                ),
                seq![input],
                result,
            ),
    {
        self.unary(
            Operation::Unary(
                UnaryKernel::Rotary { rotary_dimension, position, frequency_base, scaling },
            ),
            input,
        )
    }

    /// Adds a rank-4 grouped-query scaled dot-product attention node.
    pub fn scaled_dot_product_attention(
        &mut self,
        queries: ValueId,
        keys: ValueId,
        values: ValueId,
        scale: T,
        causal: bool,
    ) -> (result: Result<ValueId, GraphError>)
        ensures
            built(
                old(self)@,
                final(self)@,
                Operation::Attention { scale, causal },
                seq![queries, keys, values],
                result,
            ),
    {
        proof {
            reveal_with_fuel(first_invalid, 4);
            assert(seq![queries, keys, values].drop_first() =~= seq![keys, values]);
            assert(seq![keys, values].drop_first() =~= seq![values]);
            assert(seq![values].drop_first() =~= seq![]);
        }
        self.require(queries)?;
        self.require(keys)?;
        self.require(values)?;
        let mut inputs: Vec<ValueId> = Vec::new();
        inputs.push(queries);
        inputs.push(keys);
        inputs.push(values);
        assert(inputs@ =~= seq![queries, keys, values]);
        Ok(self.push(Operation::Attention { scale, causal }, inputs))
    }
}

} // verus!
