//! What holds of every graph.

use vstd::prelude::*;

use crate::graph::builder;
use crate::graph::evaluate;
use crate::graph::node::{Kernels, Node, ValueId};
use crate::tensor::arithmetic::Arithmetic;
use crate::tensor::dense::Tensor;

verus! {

/// The values of a graph stay what they are when nodes are added to it.
pub proof fn law_growing_keeps_values<T: Copy, S, A: Arithmetic<T>, K: Kernels<T, S>>(
    arithmetic: &A,
    kernels: &K,
    before: Seq<Node<T, S>>,
    after: Seq<Node<T, S>>,
    inputs: Seq<Tensor<T>>,
    values: Seq<Tensor<T>>,
)
    requires
        before.is_prefix_of(after),
        values.len() <= before.len(),
    ensures
        evaluate::values_hold(arithmetic, kernels, before, inputs, values)
            == evaluate::values_hold(arithmetic, kernels, after, inputs, values),
{
    assert(forall|i: int| 0 <= i < values.len() ==> before[i] == #[trigger] after[i]);
}

/// Handles stay valid when nodes are added to their graph.
pub proof fn law_handles_stay_valid(values: Seq<ValueId>, before: nat, after: nat)
    requires
        before <= after,
        builder::first_invalid(values, before) is None,
    ensures
        builder::first_invalid(values, after) is None,
    decreases values.len(),
{
    if values.len() > 0 {
        law_handles_stay_valid(values.drop_first(), before, after);
    }
}

/// Handles to the same value give the same result.
pub proof fn law_same_handles_give_same_results<T>(
    outputs: Seq<ValueId>,
    values: Seq<Tensor<T>>,
    results: Seq<Tensor<T>>,
    one: int,
    other: int,
)
    requires
        evaluate::outputs_hold(outputs, values, results),
        0 <= one < results.len(),
        0 <= other < results.len(),
        outputs[one]@ == outputs[other]@,
    ensures
        results[one]@ == results[other]@,
{
    assert(evaluate::output_holds(outputs[one], values, results[one]));
    assert(evaluate::output_holds(outputs[other], values, results[other]));
}

} // verus!
