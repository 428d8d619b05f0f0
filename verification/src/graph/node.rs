//! The values of a graph and the operations that yield them.

use vstd::prelude::*;

use crate::tensor::dense;
use crate::tensor::dense::Tensor;
use crate::tensor::error::TensorError;

verus! {

/// A handle to one value in a graph.
#[derive(Debug, Clone, Copy, PartialEq, Eq, Structural, Hash)]
pub struct ValueId(usize);

impl View for ValueId {
    type V = nat;

    closed spec fn view(&self) -> nat {
        self.0 as nat
    }
}

impl ValueId {
    pub(crate) fn new(index: usize) -> (value: Self)
        ensures
            value@ == index,
    {
        ValueId(index)
    }

    /// Returns the insertion index represented by this handle.
    pub fn index(self) -> (index: usize)
        ensures
            index == self@,
    {
        self.0
    }
}

/// Operations on one tensor that are left to the caller's kernels.
#[derive(Debug)]
pub enum UnaryKernel<T, S> {
    Permute(Vec<usize>),
    Slice { starts: Vec<usize>, ends: Vec<usize>, axes: Vec<usize>, strides: Vec<usize> },
    GatherRows(Vec<usize>),
    Negate,
    Absolute,
    Square,
    SquareRoot,
    Reciprocal,
    Rsqrt,
    Exponential,
    Logarithm,
    Sine,
    Cosine,
    Tanh,
    Sigmoid,
    SumLastDim,
    MeanLastDim,
    Sum { axis: usize, keepdims: bool },
    Mean { axis: usize, keepdims: bool },
    Cumsum { axis: usize, reverse: bool },
    Softmax { axis: usize },
    Clamp { minimum: T, maximum: T },
    Rotary { rotary_dimension: usize, position: T, frequency_base: T, scaling: S },
}

/// Operations on two tensors that are left to the caller's kernels.
#[derive(Debug)]
pub enum BinaryKernel {
    Maximum,
    Minimum,
    Subtract,
    Divide,
    SliceUpdate { starts: Vec<usize>, ends: Vec<usize>, axes: Vec<usize>, strides: Vec<usize> },
    Concatenate { axis: usize },
}

/// Implementations of the operations that the tensor engine itself does not
/// have. `S` says how a rotary embedding is scaled.
///
/// Nothing is asked of an implementation: contracts say which kernels are
/// applied to which tensors, and leave open what they yield.
pub trait Kernels<T, S> {
    fn apply_one(&self, kernel: &UnaryKernel<T, S>, input: &Tensor<T>) -> Result<
        Tensor<T>,
        TensorError,
    >;

    fn apply_two(&self, kernel: &BinaryKernel, left: &Tensor<T>, right: &Tensor<T>) -> Result<
        Tensor<T>,
        TensorError,
    >;
}

/// What yields a value of a graph.
#[derive(Debug)]
pub enum Operation<T, S> {
    Input { index: usize, shape: Vec<usize> },
    Constant(Tensor<T>),
    Add,
    Multiply,
    Matmul,
    Reshape(Vec<usize>),
    Transpose2d,
    Broadcast(Vec<usize>),
    RmsNorm { epsilon: T },
    RmsNormWeighted { epsilon: T },
    Scale { factor: T },
    Silu,
    SoftmaxLastDim,
    Rotary { rotary_dimension: usize, position: T, frequency_base: T },
    Attention { scale: T, causal: bool },
    Unary(UnaryKernel<T, S>),
    Binary(BinaryKernel),
}

/// An operation, and the values that it is applied to.
#[derive(Debug)]
pub struct Node<T, S> {
    pub operation: Operation<T, S>,
    pub inputs: Vec<ValueId>,
}

/// The number of values that an operation is applied to.
pub open spec fn arity<T, S>(operation: Operation<T, S>) -> nat {
    match operation {
        Operation::Input { .. } => 0,
        Operation::Constant(_) => 0,
        Operation::Add => 2,
        Operation::Multiply => 2,
        Operation::Matmul => 2,
        Operation::RmsNormWeighted { .. } => 2,
        Operation::Binary(_) => 2,
        Operation::Attention { .. } => 3,
        _ => 1,
    }
}

/// The values that a node is applied to are there, and come before it.
pub open spec fn node_valid<T, S>(node: Node<T, S>, position: nat) -> bool {
    &&& node.inputs@.len() == arity(node.operation)
    &&& forall|i: int| 0 <= i < node.inputs@.len() ==> (#[trigger] node.inputs@[i])@ < position
}

/// The number of inputs among the first `count` nodes.
pub open spec fn inputs_before<T, S>(nodes: Seq<Node<T, S>>, count: nat) -> nat
    decreases count,
{
    if count == 0 {
        0
    } else {
        inputs_before(nodes, (count - 1) as nat) + if nodes[count - 1].operation is Input {
            1nat
        } else {
            0nat
        }
    }
}

/// Inputs are numbered in order.
pub open spec fn input_numbered<T, S>(nodes: Seq<Node<T, S>>, position: int) -> bool {
    nodes[position].operation matches Operation::Input { index, .. } ==> index == inputs_before(
        nodes,
        position as nat,
    )
}

/// Every node comes behind the values that it is applied to, and the inputs are
/// numbered in order.
pub open spec fn nodes_valid<T, S>(nodes: Seq<Node<T, S>>) -> bool {
    forall|i: int| 0 <= i < nodes.len() ==> #[trigger] placed(nodes, i)
}

/// A node comes behind the values that it is applied to, and is numbered if it
/// is an input.
pub open spec fn placed<T, S>(nodes: Seq<Node<T, S>>, position: int) -> bool {
    &&& node_valid(nodes[position], position as nat)
    &&& input_numbered(nodes, position)
}

/// Counts the inputs of a graph.
pub(crate) fn count_inputs<T, S>(nodes: &Vec<Node<T, S>>) -> (count: usize)
    ensures
        count == inputs_before(nodes@, nodes@.len()),
        count <= nodes@.len(),
{
    let mut count: usize = 0;
    let mut i: usize = 0;
    while i < nodes.len()
        invariant
            i <= nodes@.len(),
            count <= i,
            count == inputs_before(nodes@, i as nat),
        decreases nodes@.len() - i,
    {
        if let Operation::Input { .. } = &nodes[i].operation {
            count += 1;
        }
        i += 1;
    }
    count
}

/// Nodes that are appended leave the count of inputs before them as it is.
pub proof fn lemma_inputs_before<T, S>(
    before: Seq<Node<T, S>>,
    after: Seq<Node<T, S>>,
    count: nat,
)
    requires
        count <= before.len(),
        before.is_prefix_of(after),
    ensures
        inputs_before(before, count) == inputs_before(after, count),
    decreases count,
{
    if count > 0 {
        lemma_inputs_before(before, after, (count - 1) as nat);
        assert(before[count - 1] == after[count - 1]);
    }
}

/// Two kernels are the same.
pub open spec fn unary_alike<T, S>(left: UnaryKernel<T, S>, right: UnaryKernel<T, S>) -> bool {
    match (left, right) {
        (UnaryKernel::Permute(a), UnaryKernel::Permute(b)) => a@ == b@,
        (
            UnaryKernel::Slice { starts: s, ends: e, axes: a, strides: t },
            UnaryKernel::Slice { starts, ends, axes, strides },
        ) => s@ == starts@ && e@ == ends@ && a@ == axes@ && t@ == strides@,
        (UnaryKernel::GatherRows(a), UnaryKernel::GatherRows(b)) => a@ == b@,
        _ => left == right,
    }
}

/// Two kernels are the same.
pub open spec fn binary_alike(left: BinaryKernel, right: BinaryKernel) -> bool {
    match (left, right) {
        (
            BinaryKernel::SliceUpdate { starts: s, ends: e, axes: a, strides: t },
            BinaryKernel::SliceUpdate { starts, ends, axes, strides },
        ) => s@ == starts@ && e@ == ends@ && a@ == axes@ && t@ == strides@,
        _ => left == right,
    }
}

/// Two operations are the same.
pub open spec fn alike<T, S>(left: Operation<T, S>, right: Operation<T, S>) -> bool {
    match (left, right) {
        (Operation::Input { index: i, shape: a }, Operation::Input { index: j, shape: b }) => {
            &&& i == j
            &&& a@ == b@
        },
        (Operation::Constant(a), Operation::Constant(b)) => a@ == b@,
        (Operation::Reshape(a), Operation::Reshape(b)) => a@ == b@,
        (Operation::Broadcast(a), Operation::Broadcast(b)) => a@ == b@,
        (Operation::Unary(a), Operation::Unary(b)) => unary_alike(a, b),
        (Operation::Binary(a), Operation::Binary(b)) => binary_alike(a, b),
        _ => left == right,
    }
}

/// Two nodes are the same.
pub open spec fn nodes_alike<T, S>(left: Node<T, S>, right: Node<T, S>) -> bool {
    &&& alike(left.operation, right.operation)
    &&& left.inputs@ == right.inputs@
}

/// The same nodes have the same inputs among them.
pub proof fn lemma_alike_inputs<T, S>(
    left: Seq<Node<T, S>>,
    right: Seq<Node<T, S>>,
    count: nat,
)
    requires
        count <= left.len(),
        left.len() == right.len(),
        forall|i: int| 0 <= i < left.len() ==> nodes_alike(left[i], #[trigger] right[i]),
    ensures
        inputs_before(left, count) == inputs_before(right, count),
    decreases count,
{
    if count > 0 {
        lemma_alike_inputs(left, right, (count - 1) as nat);
        assert(nodes_alike(left[count - 1], right[count - 1]));
    }
}

impl<T: Copy, S: Copy> Clone for UnaryKernel<T, S> {
    fn clone(&self) -> (copy: Self)
        ensures
            unary_alike(*self, copy),
    {
        match self {
            UnaryKernel::Permute(axes) => UnaryKernel::Permute(dense::copy_shape(axes)),
            UnaryKernel::Slice { starts, ends, axes, strides } => UnaryKernel::Slice {
                starts: dense::copy_shape(starts),
                ends: dense::copy_shape(ends),
                axes: dense::copy_shape(axes),
                strides: dense::copy_shape(strides),
            },
            UnaryKernel::GatherRows(indices) => UnaryKernel::GatherRows(
                dense::copy_shape(indices),
            ),
            UnaryKernel::Negate => UnaryKernel::Negate,
            UnaryKernel::Absolute => UnaryKernel::Absolute,
            UnaryKernel::Square => UnaryKernel::Square,
            UnaryKernel::SquareRoot => UnaryKernel::SquareRoot,
            UnaryKernel::Reciprocal => UnaryKernel::Reciprocal,
            UnaryKernel::Rsqrt => UnaryKernel::Rsqrt,
            UnaryKernel::Exponential => UnaryKernel::Exponential,
            UnaryKernel::Logarithm => UnaryKernel::Logarithm,
            UnaryKernel::Sine => UnaryKernel::Sine,
            UnaryKernel::Cosine => UnaryKernel::Cosine,
            UnaryKernel::Tanh => UnaryKernel::Tanh,
            UnaryKernel::Sigmoid => UnaryKernel::Sigmoid,
            UnaryKernel::SumLastDim => UnaryKernel::SumLastDim,
            UnaryKernel::MeanLastDim => UnaryKernel::MeanLastDim,
            UnaryKernel::Sum { axis, keepdims } => UnaryKernel::Sum {
                axis: *axis,
                keepdims: *keepdims,
            },
            UnaryKernel::Mean { axis, keepdims } => UnaryKernel::Mean {
                axis: *axis,
                keepdims: *keepdims,
            },
            UnaryKernel::Cumsum { axis, reverse } => UnaryKernel::Cumsum {
                axis: *axis,
                reverse: *reverse,
            },
            UnaryKernel::Softmax { axis } => UnaryKernel::Softmax { axis: *axis },
            UnaryKernel::Clamp { minimum, maximum } => UnaryKernel::Clamp {
                minimum: *minimum,
                maximum: *maximum,
            },
            UnaryKernel::Rotary {
                rotary_dimension,
                position,
                frequency_base,
                scaling,
            } => UnaryKernel::Rotary {
                rotary_dimension: *rotary_dimension,
                position: *position,
                frequency_base: *frequency_base,
                scaling: *scaling,
            },
        }
    }
}

impl Clone for BinaryKernel {
    fn clone(&self) -> (copy: Self)
        ensures
            binary_alike(*self, copy),
    {
        match self {
            BinaryKernel::Maximum => BinaryKernel::Maximum,
            BinaryKernel::Minimum => BinaryKernel::Minimum,
            BinaryKernel::Subtract => BinaryKernel::Subtract,
            BinaryKernel::Divide => BinaryKernel::Divide,
            BinaryKernel::SliceUpdate { starts, ends, axes, strides } => BinaryKernel::SliceUpdate {
                starts: dense::copy_shape(starts),
                ends: dense::copy_shape(ends),
                axes: dense::copy_shape(axes),
                strides: dense::copy_shape(strides),
            },
            BinaryKernel::Concatenate { axis } => BinaryKernel::Concatenate { axis: *axis },
        }
    }
}

impl<T: Copy, S: Copy> Clone for Operation<T, S> {
    fn clone(&self) -> (copy: Self)
        ensures
            alike(*self, copy),
    {
        match self {
            Operation::Input { index, shape } => Operation::Input {
                index: *index,
                shape: dense::copy_shape(shape),
            },
            Operation::Constant(tensor) => Operation::Constant(tensor.clone()),
            Operation::Add => Operation::Add,
            Operation::Multiply => Operation::Multiply,
            Operation::Matmul => Operation::Matmul,
            Operation::Reshape(shape) => Operation::Reshape(dense::copy_shape(shape)),
            Operation::Transpose2d => Operation::Transpose2d,
            Operation::Broadcast(shape) => Operation::Broadcast(dense::copy_shape(shape)),
            Operation::RmsNorm { epsilon } => Operation::RmsNorm { epsilon: *epsilon },
            Operation::RmsNormWeighted { epsilon } => Operation::RmsNormWeighted {
                epsilon: *epsilon,
            },
            Operation::Scale { factor } => Operation::Scale { factor: *factor },
            Operation::Silu => Operation::Silu,
            Operation::SoftmaxLastDim => Operation::SoftmaxLastDim,
            Operation::Rotary { rotary_dimension, position, frequency_base } => Operation::Rotary {
                rotary_dimension: *rotary_dimension,
                position: *position,
                frequency_base: *frequency_base,
            },
            Operation::Attention { scale, causal } => Operation::Attention {
                scale: *scale,
                causal: *causal,
            },
            Operation::Unary(kernel) => Operation::Unary(kernel.clone()),
            Operation::Binary(kernel) => Operation::Binary(kernel.clone()),
        }
    }
}

impl<T: Copy, S: Copy> Clone for Node<T, S> {
    fn clone(&self) -> (copy: Self)
        ensures
            nodes_alike(*self, copy),
    {
        let mut inputs: Vec<ValueId> = Vec::new();
        let mut i: usize = 0;
        while i < self.inputs.len()
            invariant
                i <= self.inputs@.len(),
                inputs@ == self.inputs@.take(i as int),
            decreases self.inputs@.len() - i,
        {
            inputs.push(self.inputs[i]);
            i += 1;
        }
        assert(inputs@ =~= self.inputs@);
        Node { operation: self.operation.clone(), inputs }
    }
}

} // verus!
