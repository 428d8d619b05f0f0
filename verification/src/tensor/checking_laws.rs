//! What tensors are made of, and what operations refuse.

use vstd::prelude::*;

use crate::tensor::arithmetic::Arithmetic;
use crate::tensor::broadcast_laws;
use crate::tensor::dense;
use crate::tensor::dense::Tensor;
use crate::tensor::error::{TensorError, TensorFault};
use crate::tensor::meaning;
use crate::tensor::reals;
use crate::tensor::reals::Reals;
use crate::tensor::rows;
use crate::tensor::shape;

verus! {

/// A shape holds `count` values: no dimension is zero, and their product is the
/// count.
pub open spec fn holds_count(shape: Seq<usize>, count: nat) -> bool {
    &&& forall|i: int| 0 <= i < shape.len() ==> #[trigger] shape[i] > 0
    &&& broadcast_laws::volume(shape) == count
}

proof fn lemma_count(shape: Seq<usize>, count: nat)
    requires
        count <= usize::MAX,
    ensures
        holds_count(shape, count) <==> dense::length_fault(shape, count) is None,
{
    broadcast_laws::lemma_volume(shape);
    if shape::nonzero(shape) {
        assert forall|i: int| 0 <= i < shape.len() implies #[trigger] shape[i] > 0 by {
            assert(shape.contains(shape[i]));
        }
    }
}

/// A tensor is made of a shape and of as many values as the shape holds, in the
/// order in which they are given. The values of a tensor are given another shape
/// without a change, if it holds as many.
pub proof fn law_tensors_hold_the_values_that_they_are_made_of<T: Copy>(
    shape: Vec<usize>,
    data: Vec<T>,
    made: Result<Tensor<T>, TensorError>,
    tensor: Tensor<T>,
    reshaped: Result<Tensor<T>, TensorError>,
    place: usize,
    value: Option<T>,
)
    requires
        data@.len() <= usize::MAX,
        tensor@.data.len() <= usize::MAX,
    ensures
        call_ensures(Tensor::<T>::from_data, (shape, data), made) ==> {
            &&& made is Ok <==> holds_count(shape@, data@.len())
            &&& made matches Ok(tensor) ==> tensor@.shape == shape@ && tensor@.data == data@
        },
        call_ensures(Tensor::<T>::reshape, (tensor, shape), reshaped) ==> {
            &&& reshaped is Ok <==> holds_count(shape@, tensor@.data.len())
            &&& reshaped matches Ok(other) ==> other@.shape == shape@ && other@.data
                == tensor@.data
        },
        call_ensures(Tensor::<T>::get_flat, (&tensor, place), value) ==> {
            &&& value is Some <==> place < tensor@.data.len()
            &&& value is Some ==> value->0 == tensor@.data[place as int]
        },
{
    lemma_count(shape@, data@.len());
    lemma_count(shape@, tensor@.data.len());
}

/// A tensor of zeros holds nothing but zeros. A scalar has no dimension and one
/// value.
pub proof fn law_tensors_of_zeros<T: Copy, A: Arithmetic<T>>(
    arithmetic: &A,
    n: Reals<T>,
    shape: Vec<usize>,
    made: Result<Tensor<T>, TensorError>,
    value: T,
    scalar: Tensor<T>,
)
    requires
        reals::exact(arithmetic, n),
    ensures
        call_ensures(Tensor::<T>::zeros::<A>, (shape, arithmetic), made) ==> {
            &&& made is Ok <==> broadcast_laws::volume(shape@) <= usize::MAX && holds_count(
                shape@,
                broadcast_laws::volume(shape@),
            )
            &&& made matches Ok(tensor) ==> {
                &&& tensor@.shape == shape@
                &&& tensor@.data.len() == broadcast_laws::volume(shape@)
                &&& forall|i: int|
                    0 <= i < tensor@.data.len() ==> n.is(#[trigger] tensor@.data[i]) && n.of(
                        tensor@.data[i],
                    ) == 0real
            }
        },
        call_ensures(Tensor::<T>::scalar, (value,), scalar) ==> scalar@.shape.len() == 0
            && scalar@.data == seq![value],
{
    broadcast_laws::lemma_volume(shape@);
    if broadcast_laws::volume(shape@) <= usize::MAX {
        lemma_count(shape@, broadcast_laws::volume(shape@));
    }
}

/// A value that does not stand for a number is found, the first one of all.
pub proof fn law_only_numbers_are_valid<T: Copy, A: Arithmetic<T>>(
    arithmetic: &A,
    n: Reals<T>,
    tensor: &Tensor<T>,
    result: Result<(), TensorError>,
)
    requires
        reals::exact(arithmetic, n),
        call_ensures(Tensor::<T>::validate_finite::<A>, (tensor, arithmetic), result),
    ensures
        result is Ok <==> n.all(tensor@.data),
        result matches Err(error) ==> exists|at: int|
            {
                &&& 0 <= at < tensor@.data.len()
                &&& !n.is(#[trigger] tensor@.data[at])
                &&& forall|i: int| 0 <= i < at ==> n.is(#[trigger] tensor@.data[i])
                &&& error@ == (TensorFault::NonFiniteInput { index: at as nat })
            },
{
    if let Err(error) = result {
        let at = choose|at: int| #[trigger]
            dense::first_not_finite(arithmetic, tensor@.data, at) && error@
                == (TensorFault::NonFiniteInput { index: at as nat });
        assert(!n.is(tensor@.data[at]));
    }
}

/// Values are added and multiplied at the same places of tensors of one shape, and
/// matrices are multiplied that fit: refused are all others.
pub proof fn law_shapes_have_to_fit<T: Copy, A: Arithmetic<T>>(
    arithmetic: &A,
    left: &Tensor<T>,
    right: &Tensor<T>,
    result: Result<Tensor<T>, TensorError>,
)
    ensures
        call_ensures(Tensor::<T>::add::<A>, (left, right, arithmetic), result) && result is Ok
            ==> left@.shape == right@.shape,
        call_ensures(Tensor::<T>::mul::<A>, (left, right, arithmetic), result) && result is Ok
            ==> left@.shape == right@.shape,
        call_ensures(Tensor::<T>::matmul::<A>, (left, right, arithmetic), result) && result is Ok
            ==> left@.shape.len() == 2 && right@.shape.len() == 2 && left@.shape[1]
            == right@.shape[0],
        call_ensures(Tensor::<T>::transpose_2d::<A>, (left, arithmetic), result) && result is Ok
            ==> left@.shape.len() == 2,
        call_ensures(Tensor::<T>::softmax_last_dim::<A>, (left, arithmetic), result)
            && result is Ok ==> left@.shape.len() > 0,
{
}

/// Normalizing takes a number that is not below zero, and at least one dimension.
/// Weights fill the last one.
pub proof fn law_normalizing_is_checked<T: Copy, A: Arithmetic<T>>(
    arithmetic: &A,
    n: Reals<T>,
    tensor: &Tensor<T>,
    weight: &Tensor<T>,
    epsilon: T,
    result: Result<Tensor<T>, TensorError>,
)
    requires
        reals::exact(arithmetic, n),
        result is Ok,
    ensures
        call_ensures(Tensor::<T>::rms_norm::<A>, (tensor, epsilon, arithmetic), result) ==> {
            &&& n.is(epsilon) && n.of(epsilon) >= 0real
            &&& tensor@.shape.len() > 0
        },
        call_ensures(
            Tensor::<T>::rms_norm_with_weight::<A>,
            (tensor, weight, epsilon, arithmetic),
            result,
        ) ==> {
            &&& n.is(epsilon) && n.of(epsilon) >= 0real
            &&& tensor@.shape.len() > 0
            &&& weight@.shape == seq![tensor@.shape[tensor@.shape.len() - 1]]
            &&& n.all(tensor@.data)
            &&& n.all(weight@.data)
        },
{
}

/// Rotations take pairs: an even number of values of each head, of which there is
/// an even number. The position is a number, and the base one above zero.
pub proof fn law_rotations_are_checked<T: Copy, A: Arithmetic<T>>(
    arithmetic: &A,
    n: Reals<T>,
    tensor: &Tensor<T>,
    rotary: usize,
    position: T,
    base: T,
    result: Result<Tensor<T>, TensorError>,
)
    requires
        reals::exact(arithmetic, n),
        call_ensures(
            Tensor::<T>::rotary_embedding::<A>,
            (tensor, rotary, position, base, arithmetic),
            result,
        ),
        result is Ok,
    ensures
        tensor@.shape.len() == 2,
        tensor@.shape[1] % 2 == 0,
        0 < rotary <= tensor@.shape[1],
        rotary % 2 == 0,
        n.is(position),
        n.is(base),
        n.of(base) > 0real,
        n.all(tensor@.data),
{
}

/// Attention takes a number as scale, and queries, keys and values of one batch
/// size that fit together: queries and keys have as many features, keys and values
/// as many heads and positions, there is a whole number of query heads for each key
/// head, and no more queries than keys.
pub proof fn law_attention_is_checked<T: Copy, A: Arithmetic<T>>(
    arithmetic: &A,
    n: Reals<T>,
    queries: &Tensor<T>,
    keys: &Tensor<T>,
    values: &Tensor<T>,
    scale: T,
    causal: bool,
    result: Result<Tensor<T>, TensorError>,
)
    requires
        reals::exact(arithmetic, n),
        call_ensures(
            Tensor::<T>::scaled_dot_product_attention::<A>,
            (queries, keys, values, scale, causal, arithmetic),
            result,
        ),
        result is Ok,
    ensures
        n.is(scale),
        queries@.shape.len() == 4,
        keys@.shape.len() == 4,
        values@.shape.len() == 4,
        queries@.shape[0] == keys@.shape[0],
        queries@.shape[0] == values@.shape[0],
        queries@.shape[3] == keys@.shape[3],
        keys@.shape[1] == values@.shape[1],
        keys@.shape[2] == values@.shape[2],
        queries@.shape[1] % keys@.shape[1] == 0,
        queries@.shape[2] <= keys@.shape[2],
        n.all(queries@.data),
        n.all(keys@.data),
        n.all(values@.data),
{
}

/// Shares are taken of numbers only.
pub proof fn law_shares_are_taken_of_numbers<T: Copy, A: Arithmetic<T>>(
    arithmetic: &A,
    n: Reals<T>,
    tensor: &Tensor<T>,
    result: Result<Tensor<T>, TensorError>,
)
    requires
        reals::exact(arithmetic, n),
        dense::valid_contents(tensor@),
        call_ensures(Tensor::<T>::softmax_last_dim::<A>, (tensor, arithmetic), result),
        result is Ok,
    ensures
        n.all(tensor@.data),
{
    let width = rows::row_width(tensor@);
    assert forall|i: int| 0 <= i < tensor@.data.len() implies n.is(#[trigger] tensor@.data[i]) by {
        rows::lemma_rows(tensor@);
        meaning::lemma_place_of(i, rows::row_count(tensor@), width);
        let row = i / width;
        rows::lemma_row_place(tensor@, row);
        let part = rows::row_at(tensor@, row);
        assert(part[i % width] == tensor@.data[i]);
        assert(dense::finite_before(arithmetic, part, width));
    }
}

} // verus!
