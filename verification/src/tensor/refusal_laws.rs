//! What the errors of tensor operations say.

use vstd::prelude::*;

use crate::tensor::arithmetic::Arithmetic;
use crate::tensor::broadcast_laws;
use crate::tensor::dense;
use crate::tensor::dense::Tensor;
use crate::tensor::error::{TensorError, TensorFault};
use crate::tensor::reals;
use crate::tensor::reals::Reals;
use crate::tensor::rows;
use crate::tensor::shape;

verus! {

/// A dimension of a shape is zero.
pub open spec fn has_zero(shape: Seq<usize>) -> bool {
    exists|i: int| 0 <= i < shape.len() && #[trigger] shape[i] == 0
}

proof fn lemma_zero(shape: Seq<usize>)
    ensures
        shape::nonzero(shape) <==> !has_zero(shape),
{
    if shape::nonzero(shape) {
        assert forall|i: int| 0 <= i < shape.len() implies #[trigger] shape[i] != 0 by {
            assert(shape.contains(shape[i]));
        }
    }
}

/// An error tells why a number of values does not fill a shape.
pub open spec fn tells_count(shape: Seq<usize>, count: nat, fault: TensorFault) -> bool {
    match fault {
        TensorFault::ZeroDimension => has_zero(shape),
        TensorFault::ElementCountOverflow => {
            &&& !has_zero(shape)
            &&& broadcast_laws::volume(shape) > usize::MAX
        },
        TensorFault::DataLength { expected, actual } => {
            &&& !has_zero(shape)
            &&& expected == broadcast_laws::volume(shape)
            &&& actual == count
            &&& expected != actual
        },
        _ => false,
    }
}

/// Values that do not fill a shape are refused with the number that would and with
/// their own.
pub proof fn law_errors_tell_how_many_values_are_expected<T: Copy>(
    shape: Vec<usize>,
    data: Vec<T>,
    tensor: Tensor<T>,
    result: Result<Tensor<T>, TensorError>,
)
    requires
        result is Err,
        call_ensures(Tensor::<T>::from_data, (shape, data), result) || call_ensures(
            Tensor::<T>::reshape,
            (tensor, shape),
            result,
        ),
    ensures
        call_ensures(Tensor::<T>::from_data, (shape, data), result) ==> tells_count(
            shape@,
            data@.len(),
            result->Err_0@,
        ),
        call_ensures(Tensor::<T>::reshape, (tensor, shape), result) ==> tells_count(
            shape@,
            tensor@.data.len(),
            result->Err_0@,
        ),
{
    lemma_zero(shape@);
    broadcast_laws::lemma_volume(shape@);
}

/// Tensors that do not fit are refused with their shapes, the left one first. A
/// tensor that is no matrix is refused with the number of its dimensions.
pub proof fn law_errors_tell_the_shapes<T: Copy, A: Arithmetic<T>>(
    arithmetic: &A,
    left: &Tensor<T>,
    right: &Tensor<T>,
    wide: Vec<usize>,
    result: Result<Tensor<T>, TensorError>,
)
    ensures
        (call_ensures(Tensor::<T>::add::<A>, (left, right, arithmetic), result) || call_ensures(
            Tensor::<T>::mul::<A>,
            (left, right, arithmetic),
            result,
        )) && left@.shape != right@.shape ==> result is Err && result->Err_0@ == (
        TensorFault::ShapeMismatch { left: left@.shape, right: right@.shape }),
        call_ensures(Tensor::<T>::transpose_2d::<A>, (left, arithmetic), result)
            && left@.shape.len() != 2 ==> result is Err && result->Err_0@ == (
        TensorFault::RankMismatch { expected: 2, actual: left@.shape.len() }),
        call_ensures(Tensor::<T>::matmul::<A>, (left, right, arithmetic), result)
            && left@.shape.len() != 2 ==> result is Err && result->Err_0@ == (
        TensorFault::RankMismatch { expected: 2, actual: left@.shape.len() }),
        call_ensures(Tensor::<T>::matmul::<A>, (left, right, arithmetic), result)
            && left@.shape.len() == 2 && right@.shape.len() != 2 ==> result is Err
            && result->Err_0@ == (TensorFault::RankMismatch {
            expected: 2,
            actual: right@.shape.len(),
        }),
        call_ensures(Tensor::<T>::matmul::<A>, (left, right, arithmetic), result)
            && left@.shape.len() == 2 && right@.shape.len() == 2 && left@.shape[1]
            != right@.shape[0] ==> result is Err && result->Err_0@ == (
        TensorFault::MatrixShapeMismatch { left: left@.shape, right: right@.shape }),
        call_ensures(Tensor::<T>::broadcast_to::<A>, (left, wide, arithmetic), result)
            && has_zero(wide@) ==> result is Err && result->Err_0@ == TensorFault::ZeroDimension,
        call_ensures(Tensor::<T>::broadcast_to::<A>, (left, wide, arithmetic), result)
            && !has_zero(wide@) && wide@.len() < left@.shape.len() ==> result is Err
            && result->Err_0@ == (TensorFault::ShapeMismatch { left: left@.shape, right: wide@ }),
        call_ensures(Tensor::<T>::softmax_last_dim::<A>, (left, arithmetic), result)
            && left@.shape.len() == 0 ==> result is Err && result->Err_0@
            == TensorFault::ZeroDimension,
{
    lemma_zero(wide@);
}

/// An error tells of an operation, and of a place among so many values, that it
/// gave no number there.
pub open spec fn tells_result(operation: Seq<char>, count: nat, fault: TensorFault) -> bool {
    fault matches TensorFault::NonFiniteOutput { operation: name, index } && name == operation
        && index < count
}

/// An operation on tensors that fit fails where it gives no number, and tells its
/// name and the place.
pub proof fn law_errors_tell_the_operation<T: Copy, A: Arithmetic<T>>(
    arithmetic: &A,
    left: &Tensor<T>,
    right: &Tensor<T>,
    factor: T,
    result: Result<Tensor<T>, TensorError>,
)
    requires
        result is Err,
    ensures
        call_ensures(Tensor::<T>::add::<A>, (left, right, arithmetic), result) && left@.shape
            == right@.shape ==> tells_result("add"@, left@.data.len(), result->Err_0@),
        call_ensures(Tensor::<T>::mul::<A>, (left, right, arithmetic), result) && left@.shape
            == right@.shape ==> tells_result("mul"@, left@.data.len(), result->Err_0@),
        call_ensures(Tensor::<T>::scale::<A>, (left, factor, arithmetic), result) ==> tells_result(
            "scale"@,
            left@.data.len(),
            result->Err_0@,
        ),
        call_ensures(Tensor::<T>::silu::<A>, (left, arithmetic), result) ==> tells_result(
            "silu"@,
            left@.data.len(),
            result->Err_0@,
        ),
{
}

/// An error tells the first of some values that is no number.
pub open spec fn tells_input<T>(n: Reals<T>, data: Seq<T>, fault: TensorFault) -> bool {
    fault matches TensorFault::NonFiniteInput { index } && index < data.len() && !n.is(
        data[index as int],
    ) && n.all(data.take(index as int))
}

proof fn lemma_input<T, A: Arithmetic<T>>(
    arithmetic: &A,
    n: Reals<T>,
    data: Seq<T>,
    fault: TensorFault,
)
    requires
        reals::exact(arithmetic, n),
    ensures
        dense::inputs_checked(arithmetic, data, Some(fault)) ==> tells_input(n, data, fault),
        dense::inputs_checked(arithmetic, data, None) ==> n.all(data),
{
    if dense::inputs_checked(arithmetic, data, Some(fault)) {
        let index = choose|index: int| #[trigger]
            dense::first_not_finite(arithmetic, data, index) && fault
                == (TensorFault::NonFiniteInput { index: index as nat });
        let before = data.take(index);
        assert forall|i: int| 0 <= i < before.len() implies n.is(#[trigger] before[i]) by {
            assert(before[i] == data[i]);
        }
        assert(!n.is(data[index]));
    }
}

/// Normalizing with weights that do not fill the last dimension is refused with
/// their shape and with the one that would. Rotating is refused with the shape of
/// the tensor, or for the position before the base.
pub proof fn law_errors_tell_what_is_wrong_with_parameters<T: Copy, A: Arithmetic<T>>(
    arithmetic: &A,
    n: Reals<T>,
    tensor: &Tensor<T>,
    weight: &Tensor<T>,
    rotary: usize,
    first: T,
    second: T,
    result: Result<Tensor<T>, TensorError>,
)
    requires
        reals::exact(arithmetic, n),
        result is Err,
    ensures
        call_ensures(
            Tensor::<T>::rms_norm_with_weight::<A>,
            (tensor, weight, first, arithmetic),
            result,
        ) ==> {
            let fault = result->Err_0@;
            let valid = n.is(first) && n.of(first) >= 0real;
            &&& fault is InvalidEpsilon <==> !valid
            &&& valid ==> (fault is ZeroDimension <==> tensor@.shape.len() == 0)
            &&& valid && tensor@.shape.len() > 0 && weight@.shape != seq![
                tensor@.shape[tensor@.shape.len() - 1],
            ] ==> fault == (TensorFault::ShapeMismatch {
                left: weight@.shape,
                right: seq![tensor@.shape[tensor@.shape.len() - 1]],
            })
            &&& fault is NonFiniteInput ==> tells_input(n, tensor@.data, fault) || tells_input(
                n,
                weight@.data,
                fault,
            ) && n.all(tensor@.data)
        },
        call_ensures(Tensor::<T>::rms_norm::<A>, (tensor, first, arithmetic), result) ==> {
            let fault = result->Err_0@;
            let valid = n.is(first) && n.of(first) >= 0real;
            &&& fault is InvalidEpsilon <==> !valid
            &&& valid ==> (fault is ZeroDimension <==> tensor@.shape.len() == 0)
        },
        call_ensures(
            Tensor::<T>::rotary_embedding::<A>,
            (tensor, rotary, first, second, arithmetic),
            result,
        ) ==> {
            let fault = result->Err_0@;
            let fits = {
                &&& tensor@.shape.len() == 2
                &&& tensor@.shape[1] % 2 == 0
                &&& 0 < rotary <= tensor@.shape[1]
                &&& rotary % 2 == 0
            };
            &&& !fits ==> fault == (TensorFault::RotaryShapeMismatch { shape: tensor@.shape })
            &&& fits && !n.is(first) ==> fault == TensorFault::InvalidPosition
            &&& fits && n.is(first) && !(n.is(second) && n.of(second) > 0real) ==> fault
                == TensorFault::InvalidFrequencyBase
            &&& fault is NonFiniteInput ==> tells_input(n, tensor@.data, fault)
        },
{
    lemma_input(arithmetic, n, tensor@.data, result->Err_0@);
    lemma_input(arithmetic, n, weight@.data, result->Err_0@);
}

/// Attention is refused for its scale before anything else, and for shapes that do
/// not fit with all three of them. The first value that is no number is looked for
/// among queries, keys and values, in this order.
pub proof fn law_errors_tell_what_attention_is_refused_for<T: Copy, A: Arithmetic<T>>(
    arithmetic: &A,
    n: Reals<T>,
    queries: &Tensor<T>,
    keys: &Tensor<T>,
    values: &Tensor<T>,
    scale: T,
    causal: bool,
    result: Result<Tensor<T>, TensorError>,
)
    requires
        reals::exact(arithmetic, n),
        result is Err,
        call_ensures(
            Tensor::<T>::scaled_dot_product_attention::<A>,
            (queries, keys, values, scale, causal, arithmetic),
            result,
        ),
    ensures
        result->Err_0@ is InvalidScale <==> !n.is(scale),
        result->Err_0@ is AttentionShapeMismatch ==> result->Err_0@ == (
        TensorFault::AttentionShapeMismatch {
            queries: queries@.shape,
            keys: keys@.shape,
            values: values@.shape,
        }),
        result->Err_0@ is NonFiniteInput ==> {
            let fault = result->Err_0@;
            ||| tells_input(n, queries@.data, fault)
            ||| n.all(queries@.data) && tells_input(n, keys@.data, fault)
            ||| n.all(queries@.data) && n.all(keys@.data) && tells_input(n, values@.data, fault)
        },
        result->Err_0@ matches TensorFault::NonFiniteOutput { operation, index } ==> operation
            == "scaled_dot_product_attention"@,
{
    let fault = result->Err_0@;
    lemma_input(arithmetic, n, queries@.data, fault);
    lemma_input(arithmetic, n, keys@.data, fault);
    lemma_input(arithmetic, n, values@.data, fault);
}

/// Shares are refused for the first value that is no number, with its place in its
/// row.
pub proof fn law_errors_tell_the_place_in_the_row<T: Copy, A: Arithmetic<T>>(
    arithmetic: &A,
    n: Reals<T>,
    tensor: &Tensor<T>,
    result: Result<Tensor<T>, TensorError>,
)
    requires
        reals::exact(arithmetic, n),
        dense::valid_contents(tensor@),
        tensor@.shape.len() > 0,
        call_ensures(Tensor::<T>::softmax_last_dim::<A>, (tensor, arithmetic), result),
    ensures
        result matches Err(error) ==> (error@ matches TensorFault::NonFiniteInput { index } ==> {
            let width = tensor@.shape[tensor@.shape.len() - 1];
            exists|place: int|
                {
                    &&& 0 <= place < tensor@.data.len()
                    &&& !n.is(#[trigger] tensor@.data[place])
                    &&& place % width as int == index
                }
        }),
{
    if let Err(error) = result {
        if let TensorFault::NonFiniteInput { index } = error@ {
            let width = rows::row_width(tensor@);
            let (row, at) = choose|row: int, at: int| #[trigger]
                rows::row_not_finite(arithmetic, tensor@, row, at) && index == at;
            rows::lemma_rows(tensor@);
            rows::lemma_row_place(tensor@, row);
            let place = row * width + at;
            assert(rows::row_at(tensor@, row)[at] == tensor@.data[place]);
            assert(!n.is(tensor@.data[place]));
            vstd::arithmetic::div_mod::lemma_fundamental_div_mod_converse(place, width, row, at);
        }
    }
}

} // verus!
