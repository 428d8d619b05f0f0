//! What holds of tensor operations taken together.

use vstd::prelude::*;

use crate::tensor::arithmetic::Arithmetic;
use crate::tensor::attention;
use crate::tensor::dense;
use crate::tensor::dense::{Contents, Tensor};
use crate::tensor::error::TensorError;
use crate::tensor::shape;

verus! {

/// Transposing a matrix twice gives it back.
pub proof fn law_transposing_twice_restores<T>(contents: Contents<T>)
    requires
        dense::valid_contents(contents),
        contents.shape.len() == 2,
    ensures
        dense::transposed(
            Contents {
                shape: seq![contents.shape[1], contents.shape[0]],
                data: dense::transposed(contents),
            },
        ) == contents.data,
{
    dense::lemma_matrix_count(contents.shape);
    let rows = contents.shape[0] as int;
    let columns = contents.shape[1] as int;
    let once = Contents {
        shape: seq![contents.shape[1], contents.shape[0]],
        data: dense::transposed(contents),
    };
    assert(columns * rows == rows * columns) by (nonlinear_arith);
    assert forall|i: int| 0 <= i < rows * columns implies #[trigger] dense::transposed(once)[i]
        == contents.data[i] by {
        let row = i / columns;
        let column = i % columns;
        assert(0 <= row < rows && 0 <= column < columns && i == row * columns + column)
            by (nonlinear_arith)
            requires
                row == i / columns,
                column == i % columns,
                0 <= i < rows * columns,
                columns > 0,
        ;
        let j = column * rows + row;
        dense::lemma_inside(column, row, columns, rows);
        dense::lemma_split(column, row, rows);
        assert(once.data[j] == contents.data[i]);
    }
    assert(dense::transposed(once) =~= contents.data);
}

/// A broadcast to a tensor's own shape changes nothing.
pub proof fn law_broadcast_to_own_shape<T>(contents: Contents<T>)
    requires
        dense::valid_contents(contents),
    ensures
        shape::broadcasts(contents.shape, contents.shape),
        dense::broadcast(contents, contents.shape) == contents.data,
{
    assert forall|i: nat| i < contents.data.len() implies #[trigger] shape::source_index(
        contents.shape,
        contents.shape,
        i,
    ) == i by {
        lemma_own_index(contents.shape, i);
    }
    assert(dense::broadcast(contents, contents.shape) =~= contents.data);
}

proof fn lemma_own_index(shape: Seq<usize>, index: nat)
    requires
        shape::nonzero(shape),
        index < shape::element_count_of(shape),
    ensures
        shape::source_index(shape, shape, index) == index,
    decreases shape.len(),
{
    if shape.len() > 0 {
        shape::lemma_nonzero_drop_last(shape);
        let length = shape.last() as nat;
        let outer = shape::element_count_of(shape.drop_last());
        assert(index / length < outer) by (nonlinear_arith)
            requires
                index < outer * length,
                length > 0,
        ;
        lemma_own_index(shape.drop_last(), index / length);
        assert(index == (index / length) * length + index % length) by (nonlinear_arith)
            requires
                length > 0,
        ;
    }
}

/// Every value of a broadcast is a value of its source.
pub proof fn law_broadcast_repeats_values<T>(
    contents: Contents<T>,
    target: Seq<usize>,
    index: int,
)
    requires
        dense::valid_contents(contents),
        shape::nonzero(target),
        shape::broadcasts(contents.shape, target),
        0 <= index < shape::element_count_of(target),
    ensures
        contents.data.contains(dense::broadcast(contents, target)[index]),
{
    shape::lemma_source_index_bound(contents.shape, target, index as nat);
    let place = shape::source_index(contents.shape, target, index as nat) as int;
    assert(contents.data[place] == dense::broadcast(contents, target)[index]);
}

/// Broadcasting in two steps is broadcasting at once.
pub proof fn law_broadcasts_compose<T>(
    contents: Contents<T>,
    middle: Seq<usize>,
    target: Seq<usize>,
)
    requires
        dense::valid_contents(contents),
        shape::nonzero(middle),
        shape::nonzero(target),
        shape::broadcasts(contents.shape, middle),
        shape::broadcasts(middle, target),
    ensures
        shape::broadcasts(contents.shape, target),
        dense::broadcast(
            Contents { shape: middle, data: dense::broadcast(contents, middle) },
            target,
        ) == dense::broadcast(contents, target),
{
    let source = contents.shape;
    assert forall|axis: int| 0 <= axis < source.len() implies #[trigger] source[axis] == 1
        || source[axis] == target[target.len() - source.len() + axis] by {
        assert(source[axis] == 1 || source[axis] == middle[middle.len() - source.len() + axis]);
        let at = middle.len() - source.len() + axis;
        assert(middle[at] == 1 || middle[at] == target[target.len() - middle.len() + at]);
    }
    let once = Contents { shape: middle, data: dense::broadcast(contents, middle) };
    assert forall|i: int| 0 <= i < shape::element_count_of(target) implies #[trigger]
        dense::broadcast(once, target)[i] == dense::broadcast(contents, target)[i] by {
        shape::lemma_source_index_bound(middle, target, i as nat);
        lemma_two_steps(source, middle, target, i as nat);
    }
    assert(dense::broadcast(once, target) =~= dense::broadcast(contents, target));
}

proof fn lemma_two_steps(source: Seq<usize>, middle: Seq<usize>, target: Seq<usize>, index: nat)
    requires
        shape::nonzero(middle),
        shape::nonzero(target),
        shape::broadcasts(source, middle),
        shape::broadcasts(middle, target),
    ensures
        shape::source_index(source, middle, shape::source_index(middle, target, index))
            == shape::source_index(source, target, index),
    decreases source.len(),
{
    if source.len() > 0 {
        let s = source.drop_last();
        let m = middle.drop_last();
        let t = target.drop_last();
        shape::lemma_nonzero_drop_last(middle);
        shape::lemma_nonzero_drop_last(target);
        assert forall|axis: int| 0 <= axis < s.len() implies #[trigger] s[axis] == 1 || s[axis]
            == m[m.len() - s.len() + axis] by {
            assert(source[axis] == 1 || source[axis] == middle[middle.len() - source.len() + axis]);
        }
        assert forall|axis: int| 0 <= axis < m.len() implies #[trigger] m[axis] == 1 || m[axis]
            == t[t.len() - m.len() + axis] by {
            assert(middle[axis] == 1 || middle[axis] == target[target.len() - middle.len() + axis]);
        }
        assert(source[source.len() - 1] == 1 || source[source.len() - 1] == middle[middle.len()
            - 1]);
        assert(middle[middle.len() - 1] == 1 || middle[middle.len() - 1] == target[target.len()
            - 1]);
        let length = target.last() as nat;
        lemma_two_steps(s, m, t, index / length);
        let outer = shape::source_index(m, t, index / length);
        if middle.last() == 1 {
            assert(shape::source_index(middle, target, index) == outer);
            assert(outer / 1 == outer);
        } else {
            dense::lemma_split(outer as int, (index % length) as int, length as int);
        }
    }
}

/// A masked query reads one key more than the one before it, and the last one
/// reads all keys.
pub proof fn law_causal_queries_see_their_past(
    queries: Seq<usize>,
    keys: Seq<usize>,
    values: Seq<usize>,
    row: int,
)
    requires
        shape::nonzero(queries),
        shape::nonzero(keys),
        shape::nonzero(values),
        attention::attention_fits(queries, keys, values),
        0 <= row < attention::query_rows(queries),
    ensures
        0 < attention::keys_read(queries, keys, true, row) <= attention::keys_read(
            queries,
            keys,
            false,
            row,
        ),
        row % queries[2] as int == queries[2] - 1 ==> attention::keys_read(
            queries,
            keys,
            true,
            row,
        ) == keys[2],
        row % queries[2] as int != queries[2] - 1 ==> attention::keys_read(
            queries,
            keys,
            true,
            row + 1,
        ) == attention::keys_read(queries, keys, true, row) + 1,
{
    assert(queries.contains(queries[2]));
    let length = queries[2] as int;
    let position = row % length;
    if position != length - 1 {
        assert(row == (row / length) * length + position) by (nonlinear_arith)
            requires
                position == row % length,
                length > 0,
        ;
        dense::lemma_split(row / length, position + 1, length);
    }
}

/// Query heads of one batch that fall into the same group read the same keys
/// and values.
pub proof fn law_grouped_heads_share_keys(
    queries: Seq<usize>,
    keys: Seq<usize>,
    batch: int,
    one: int,
    other: int,
    position: int,
    elsewhere: int,
)
    requires
        shape::nonzero(queries),
        queries.len() == 4,
        keys.len() == 4,
        0 <= batch,
        0 <= one < queries[1],
        0 <= other < queries[1],
        0 <= position < queries[2],
        0 <= elsewhere < queries[2],
        one / (queries[1] as int / keys[1] as int) == other / (queries[1] as int / keys[1] as int),
    ensures
        attention::key_start(
            queries,
            keys,
            (batch * queries[1] + one) * queries[2] + position,
        ) == attention::key_start(
            queries,
            keys,
            (batch * queries[1] + other) * queries[2] + elsewhere,
        ),
{
    lemma_row_parts(batch, one, position, queries[1] as int, queries[2] as int);
    lemma_row_parts(batch, other, elsewhere, queries[1] as int, queries[2] as int);
}

pub(crate) proof fn lemma_row_parts(batch: int, head: int, position: int, heads: int, length: int)
    requires
        0 <= batch,
        0 <= head < heads,
        0 <= position < length,
    ensures
        ((batch * heads + head) * length + position) / (heads * length) == batch,
        (((batch * heads + head) * length + position) / length) % heads == head,
{
    let upper = batch * heads + head;
    assert(0 <= batch * heads) by (nonlinear_arith)
        requires
            0 <= batch,
            0 < heads,
    ;
    dense::lemma_split(batch, head, heads);
    dense::lemma_split(upper, position, length);
    dense::lemma_inside(head, position, heads, length);
    assert(upper * length + position == batch * (heads * length) + (head * length + position))
        by (nonlinear_arith)
        requires
            upper == batch * heads + head,
    ;
    dense::lemma_split(batch, head * length + position, heads * length);
}

/// `result` is what some arithmetic operation on tensors and numbers yields.
pub open spec fn computed<T: Copy, A: Arithmetic<T>>(
    arithmetic: &A,
    tensors: (&Tensor<T>, &Tensor<T>, &Tensor<T>),
    numbers: (T, T),
    dimension: usize,
    causal: bool,
    result: Result<Tensor<T>, TensorError>,
) -> bool {
    let (x, y, z) = tensors;
    let (a, b) = numbers;
    ||| call_ensures(Tensor::<T>::add::<A>, (x, y, arithmetic), result)
    ||| call_ensures(Tensor::<T>::mul::<A>, (x, y, arithmetic), result)
    ||| call_ensures(Tensor::<T>::scale::<A>, (x, a, arithmetic), result)
    ||| call_ensures(Tensor::<T>::silu::<A>, (x, arithmetic), result)
    ||| call_ensures(Tensor::<T>::matmul::<A>, (x, y, arithmetic), result)
    ||| call_ensures(Tensor::<T>::rms_norm::<A>, (x, a, arithmetic), result)
    ||| call_ensures(Tensor::<T>::rms_norm_with_weight::<A>, (x, y, a, arithmetic), result)
    ||| call_ensures(Tensor::<T>::softmax_last_dim::<A>, (x, arithmetic), result)
    ||| call_ensures(
        Tensor::<T>::rotary_embedding::<A>,
        (x, dimension, a, b, arithmetic),
        result,
    )
    ||| call_ensures(
        Tensor::<T>::scaled_dot_product_attention::<A>,
        (x, y, z, a, causal, arithmetic),
        result,
    )
}

/// No arithmetic operation yields a tensor with a value that is not finite.
pub proof fn law_results_are_finite<T: Copy, A: Arithmetic<T>>(
    arithmetic: &A,
    tensors: (&Tensor<T>, &Tensor<T>, &Tensor<T>),
    numbers: (T, T),
    dimension: usize,
    causal: bool,
    result: Result<Tensor<T>, TensorError>,
)
    requires
        computed(arithmetic, tensors, numbers, dimension, causal, result),
        result is Ok,
    ensures
        dense::finite_before(arithmetic, result->Ok_0@.data, result->Ok_0@.data.len() as int),
{
}

} // verus!
