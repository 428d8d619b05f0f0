//! What is handed on when tensors are loaded one by one.

use vstd::prelude::*;

use crate::model::blocks;
use crate::model::error::ModelError;
use crate::model::descriptor::Descriptor;
use crate::model::index;
use crate::model::index::{GgufModel, ModelSource};
use crate::model::load;
use crate::model::quantized::LoadedTensor;
use crate::model::reading_laws;
use crate::model::values;
use crate::model::visit;
use crate::tensor::arithmetic::Arithmetic;
use crate::tensor::dense::Tensor;
use crate::tensor::reals;
use crate::tensor::reals::Reals;

verus! {

/// A call was given a tensor under a name, and accepted it.
pub open spec fn was_given<L, F: FnMut(&str, L) -> Result<(), E>, E>(
    callback: F,
    name: Seq<char>,
    tensor: L,
) -> bool {
    exists|given: &str, answer: Result<(), E>|
        {
            &&& #[trigger] call_ensures(callback, (given, tensor), answer)
            &&& answer is Ok
            &&& given@ == name
        }
}

/// A tensor of a file, given by its descriptor, holds the numbers of its weights as
/// far as they are finite.
pub open spec fn holds_weights_of<T>(
    n: Reals<T>,
    file: Seq<u8>,
    descriptor: Descriptor,
    tensor: Tensor<T>,
) -> bool {
    let data = reading_laws::bytes_of(file, descriptor);
    &&& tensor@.shape == descriptor.shape
    &&& forall|k: int|
        0 <= k < tensor@.data.len() && values::finite_term(
            blocks::term_at(descriptor.value_type, data, k),
        ) ==> n.of(#[trigger] tensor@.data[k]) == reading_laws::stored_number(
            n,
            descriptor.value_type,
            data,
            k,
        )
}

proof fn lemma_loaded<T, A: Arithmetic<T>>(
    arithmetic: &A,
    n: Reals<T>,
    file: Seq<u8>,
    descriptor: Descriptor,
    tensor: Tensor<T>,
)
    requires
        reals::exact(arithmetic, n),
        load::tensor_answer(arithmetic, file, descriptor, Ok(tensor)),
    ensures
        holds_weights_of(n, file, descriptor, tensor),
{
    let data = reading_laws::bytes_of(file, descriptor);
    assert forall|k: int|
        0 <= k < tensor@.data.len() && values::finite_term(
            blocks::term_at(descriptor.value_type, data, k),
        ) implies n.of(#[trigger] tensor@.data[k]) == reading_laws::stored_number(
        n,
        descriptor.value_type,
        data,
        k,
    ) by {
        values::law_weights_are_decoded_to_their_numbers(
            arithmetic,
            n,
            blocks::term_at(descriptor.value_type, data, k),
            tensor@.data[k],
        );
    }
}

/// Every tensor that is asked for is handed on under its name, with the numbers of
/// its weights.
pub proof fn law_tensors_are_handed_on<T: Copy, A: Arithmetic<T>, F, E>(
    arithmetic: &A,
    n: Reals<T>,
    model: &GgufModel,
    names: &[&str],
    source: ModelSource<'_>,
    callback: F,
    i: int,
) where F: FnMut(&str, Tensor<T>) -> Result<(), E>, E: From<ModelError>
    requires
        reals::exact(arithmetic, n),
        call_ensures(
            GgufModel::for_each_f32::<T, A, F, E>,
            (model, names, source, callback, arithmetic),
            Ok::<(), E>(()),
        ),
        0 <= i < names@.len(),
    ensures
        index::tensor_named(model@, names@[i]@) is Some,
        ({
            let descriptor = index::tensor_named(model@, names@[i]@)->0;
            exists|tensor: Tensor<T>|
                {
                    &&& #[trigger] was_given(callback, descriptor.name, tensor)
                    &&& holds_weights_of(n, source.spec_bytes(), descriptor, tensor)
                }
        }),
{
    let file = source.spec_bytes();
    let (descriptors, tensors) = choose|descriptors: Seq<Descriptor>, tensors: Seq<Tensor<T>>|
        {
            &&& #[trigger] load::resolved(model@, names@, descriptors)
            &&& #[trigger] visit::visited_before(
                arithmetic,
                file,
                descriptors,
                callback,
                names@.len() as int,
                tensors,
            )
        };
    assert(index::tensor_named(model@, names@[i]@) == Some(descriptors[i]));
    assert(load::tensor_answer(arithmetic, file, descriptors[i], Ok(tensors[i])));
    lemma_loaded(arithmetic, n, file, descriptors[i], tensors[i]);
    assert(visit::accepted(callback, descriptors[i].name, tensors[i]));
    let descriptor = index::tensor_named(model@, names@[i]@)->0;
    let tensor = tensors[i];
    assert(was_given(callback, descriptor.name, tensor));
    assert(holds_weights_of(n, file, descriptor, tensor));
    assert(exists|tensor: Tensor<T>|
        {
            &&& #[trigger] was_given(callback, descriptor.name, tensor)
            &&& holds_weights_of(n, file, descriptor, tensor)
        });
}

/// A matrix whose weights are stored in blocks, and whose columns whole groups fill.
pub open spec fn is_convertible(descriptor: Descriptor, size: usize) -> bool {
    &&& descriptor.shape.len() == 2
    &&& reading_laws::quantized(descriptor.value_type)
    &&& descriptor.shape[0] as int % size as int == 0
}

/// A matrix that can be is handed on in affine layout, and every other tensor with
/// the numbers of its weights.
pub proof fn law_matrices_are_handed_on_in_affine_layout<T: Copy, A: Arithmetic<T>, F, E>(
    arithmetic: &A,
    n: Reals<T>,
    model: &GgufModel,
    names: &[&str],
    size: usize,
    bits: usize,
    source: ModelSource<'_>,
    callback: F,
    i: int,
) where F: FnMut(&str, LoadedTensor<T>) -> Result<(), E>, E: From<ModelError>
    requires
        reals::exact(arithmetic, n),
        call_ensures(
            GgufModel::for_each_tensor::<T, A, F, E>,
            (model, names, size, bits, source, callback, arithmetic),
            Ok::<(), E>(()),
        ),
        0 <= i < names@.len(),
    ensures
        size == 32 || size == 64 || size == 128,
        2 <= bits <= 8 && bits != 7,
        index::tensor_named(model@, names@[i]@) is Some,
        ({
            let descriptor = index::tensor_named(model@, names@[i]@)->0;
            exists|tensor: LoadedTensor<T>|
                {
                    &&& #[trigger] was_given(callback, descriptor.name, tensor)
                    &&& tensor is AffineQuantized <==> is_convertible(descriptor, size)
                    &&& tensor is F32 ==> holds_weights_of(
                        n,
                        source.spec_bytes(),
                        descriptor,
                        tensor->F32_0,
                    )
                }
        }),
{
    let file = source.spec_bytes();
    let (descriptors, tensors) = choose|
        descriptors: Seq<Descriptor>,
        tensors: Seq<LoadedTensor<T>>,
    |
        {
            &&& #[trigger] load::resolved(model@, names@, descriptors)
            &&& #[trigger] visit::chosen_before(
                arithmetic,
                file,
                descriptors,
                size as nat,
                bits as nat,
                callback,
                names@.len() as int,
                tensors,
            )
        };
    assert(index::tensor_named(model@, names@[i]@) == Some(descriptors[i]));
    let descriptor = index::tensor_named(model@, names@[i]@)->0;
    let tensor = tensors[i];
    assert(visit::chosen(
        arithmetic,
        file,
        descriptor,
        size as nat,
        bits as nat,
        callback,
        tensor,
    ));
    reading_laws::lemma_layout(descriptor.value_type);
    if let LoadedTensor::F32(plain) = tensor {
        lemma_loaded(arithmetic, n, file, descriptor, plain);
    }
    assert(was_given(callback, descriptor.name, tensor));
    assert(tensor is AffineQuantized <==> is_convertible(descriptor, size));
    assert(exists|tensor: LoadedTensor<T>|
        {
            &&& #[trigger] was_given(callback, descriptor.name, tensor)
            &&& tensor is AffineQuantized <==> is_convertible(descriptor, size)
            &&& tensor is F32 ==> holds_weights_of(n, file, descriptor, tensor->F32_0)
        });
}

} // verus!
