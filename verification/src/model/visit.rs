//! Tensors of a model, handed on one after the other.

use vstd::prelude::*;

use crate::model::affine;
use crate::model::descriptor::Descriptor;
use crate::model::error::ModelError;
use crate::model::index;
use crate::model::index::{GgufModel, Index, ModelSource};
use crate::model::load;
use crate::model::quantized;
use crate::model::quantized::LoadedTensor;
use crate::tensor::arithmetic::Arithmetic;
use crate::tensor::dense::Tensor;

verus! {

/// A call has accepted a tensor of a given name.
pub open spec fn accepted<V, F: FnMut(&str, V) -> Result<(), E>, E>(
    callback: F,
    name: Seq<char>,
    value: V,
) -> bool {
    exists|text: &str, answer: Result<(), E>|
        {
            &&& text@ == name
            &&& #[trigger] call_ensures(callback, (text, value), answer)
            &&& answer is Ok
        }
}

/// A call has refused a tensor of a given name.
pub open spec fn refused<V, F: FnMut(&str, V) -> Result<(), E>, E>(
    callback: F,
    name: Seq<char>,
    value: V,
    error: E,
) -> bool {
    exists|text: &str|
        {
            &&& text@ == name
            &&& #[trigger] call_ensures(callback, (text, value), Err::<(), E>(error))
        }
}

/// Affine parameters are not supported.
pub open spec fn parameters_barred<E: From<ModelError>>(
    group_size: nat,
    bits: nat,
    answer: E,
) -> bool {
    exists|error: ModelError|
        {
            &&& #[trigger] converted(error, answer)
            &&& affine::parameter_fault(group_size, bits) == Some(error@)
        }
}

/// An error of the model, as an error of the caller.
pub open spec fn converted<E: From<ModelError>>(error: ModelError, answer: E) -> bool {
    call_ensures(E::from, (error,), answer)
}

/// The first `count` tensors have been decoded and handed on.
pub open spec fn visited_before<
    T,
    A: Arithmetic<T>,
    F: FnMut(&str, Tensor<T>) -> Result<(), E>,
    E,
>(
    arithmetic: &A,
    file: Seq<u8>,
    descriptors: Seq<Descriptor>,
    callback: F,
    count: int,
    tensors: Seq<Tensor<T>>,
) -> bool {
    &&& load::decoded_before(arithmetic, file, descriptors, count, tensors)
    &&& forall|i: int|
        0 <= i < count ==> accepted(callback, descriptors[i].name, #[trigger] tensors[i])
}

/// Tensor `at` could not be decoded, or the caller refused it.
pub open spec fn visit_ended<
    T,
    A: Arithmetic<T>,
    F: FnMut(&str, Tensor<T>) -> Result<(), E>,
    E: From<ModelError>,
>(
    arithmetic: &A,
    file: Seq<u8>,
    descriptors: Seq<Descriptor>,
    callback: F,
    at: int,
    answer: E,
) -> bool {
    &&& 0 <= at < descriptors.len()
    &&& exists|tensors: Seq<Tensor<T>>| #[trigger]
        visited_before(arithmetic, file, descriptors, callback, at, tensors)
    &&& {
        ||| exists|error: ModelError|
            {
                &&& load::tensor_answer(
                    arithmetic,
                    file,
                    descriptors[at],
                    Err::<Tensor<T>, ModelError>(error),
                )
                &&& #[trigger] converted(error, answer)
            }
        ||| exists|tensor: Tensor<T>|
            {
                &&& load::tensor_answer(arithmetic, file, descriptors[at], Ok(tensor))
                &&& #[trigger] refused(callback, descriptors[at].name, tensor, answer)
            }
    }
}

/// A visit cannot begin.
pub open spec fn visit_barred<E: From<ModelError>>(
    index: Index,
    names: Seq<&str>,
    source: ModelSource,
    answer: E,
) -> bool {
    exists|error: ModelError|
        {
            &&& #[trigger] converted(error, answer)
            &&& {
                ||| load::name_missing(index, names, error@)
                ||| exists|descriptors: Seq<Descriptor>| #[trigger]
                    load::resolved(index, names, descriptors) && index::changed_fault(index, source)
                        == Some(error@)
            }
        }
}

/// The first `count` tensors have been loaded and handed on.
pub open spec fn chosen_before<
    T,
    A: Arithmetic<T>,
    F: FnMut(&str, LoadedTensor<T>) -> Result<(), E>,
    E,
>(
    arithmetic: &A,
    file: Seq<u8>,
    descriptors: Seq<Descriptor>,
    group_size: nat,
    bits: nat,
    callback: F,
    count: int,
    tensors: Seq<LoadedTensor<T>>,
) -> bool {
    &&& tensors.len() == count
    &&& forall|i: int|
        0 <= i < count ==> chosen(
            arithmetic,
            file,
            descriptors[i],
            group_size,
            bits,
            callback,
            #[trigger] tensors[i],
        )
}

/// A tensor has been loaded, and a call has accepted it.
pub open spec fn chosen<
    T,
    A: Arithmetic<T>,
    F: FnMut(&str, LoadedTensor<T>) -> Result<(), E>,
    E,
>(
    arithmetic: &A,
    file: Seq<u8>,
    descriptor: Descriptor,
    group_size: nat,
    bits: nat,
    callback: F,
    tensor: LoadedTensor<T>,
) -> bool {
    &&& quantized::selected(arithmetic, file, descriptor, group_size, bits, Ok(tensor))
    &&& accepted(callback, descriptor.name, tensor)
}

/// Tensor `at` could not be loaded, or the caller refused it.
pub open spec fn choice_stopped<
    T,
    A: Arithmetic<T>,
    F: FnMut(&str, LoadedTensor<T>) -> Result<(), E>,
    E: From<ModelError>,
>(
    arithmetic: &A,
    file: Seq<u8>,
    descriptors: Seq<Descriptor>,
    group_size: nat,
    bits: nat,
    callback: F,
    at: int,
    answer: E,
) -> bool {
    &&& 0 <= at < descriptors.len()
    &&& exists|tensors: Seq<LoadedTensor<T>>| #[trigger]
        chosen_before(
            arithmetic,
            file,
            descriptors,
            group_size,
            bits,
            callback,
            at,
            tensors,
        )
    &&& {
        ||| exists|error: ModelError|
            {
                &&& quantized::selected(
                    arithmetic,
                    file,
                    descriptors[at],
                    group_size,
                    bits,
                    Err::<LoadedTensor<T>, ModelError>(error),
                )
                &&& #[trigger] converted(error, answer)
            }
        ||| exists|tensor: LoadedTensor<T>|
            {
                &&& quantized::selected(
                    arithmetic,
                    file,
                    descriptors[at],
                    group_size,
                    bits,
                    Ok(tensor),
                )
                &&& #[trigger] refused(callback, descriptors[at].name, tensor, answer)
            }
    }
}

impl GgufModel {
    /// Materializes several tensors, handing each one on before the next is
    /// decoded.
    ///
    /// The callback receives tensors in the order of `names`. Duplicate names
    /// are allowed.
    pub fn for_each_f32<T: Copy, A: Arithmetic<T>, F, E>(
        &self,
        names: &[&str],
        source: ModelSource<'_>,
        callback: F,
        arithmetic: &A,
    ) -> (result: Result<(), E>) where
        F: FnMut(&str, Tensor<T>) -> Result<(), E>,
        E: From<ModelError>,

        requires
            forall|name: &str, tensor: Tensor<T>| call_requires(callback, (name, tensor)),
        ensures
            match result {
                Ok(()) => {
                    &&& index::changed_fault(self@, source) is None
                    &&& exists|descriptors: Seq<Descriptor>, tensors: Seq<Tensor<T>>|
                        {
                            &&& #[trigger] load::resolved(self@, names@, descriptors)
                            &&& #[trigger] visited_before(
                                arithmetic,
                                source.spec_bytes(),
                                descriptors,
                                callback,
                                names@.len() as int,
                                tensors,
                            )
                        }
                },
                Err(answer) => {
                    ||| visit_barred(self@, names@, source, answer)
                    ||| {
                        &&& index::changed_fault(self@, source) is None
                        &&& exists|descriptors: Seq<Descriptor>, at: int|
                            {
                                &&& #[trigger] load::resolved(self@, names@, descriptors)
                                &&& #[trigger] visit_ended(
                                    arithmetic,
                                    source.spec_bytes(),
                                    descriptors,
                                    callback,
                                    at,
                                    answer,
                                )
                            }
                    }
                },
            },
    {
        let mut handler = callback;
        let descriptors = match self.resolve(names) {
            Ok(descriptors) => descriptors,
            Err(error) => {
                let answer = E::from(error);
                assert(converted(error, answer));
                return Err(answer);
            },
        };
        let ghost rows = load::views(descriptors@);
        let bytes = match self.validated_bytes(source) {
            Ok(bytes) => bytes,
            Err(error) => {
                let answer = E::from(error);
                assert(converted(error, answer));
                assert(load::resolved(self@, names@, rows));
                return Err(answer);
            },
        };
        let ghost mut tensors: Seq<Tensor<T>> = seq![];
        let mut i: usize = 0;
        while i < descriptors.len()
            invariant
                i <= descriptors@.len(),
                rows == load::views(descriptors@),
                load::resolved(self@, names@, rows),
                index::changed_fault(self@, source) is None,
                bytes@ == source.spec_bytes(),
                handler == callback,
                forall|name: &str, tensor: Tensor<T>| call_requires(callback, (name, tensor)),
                visited_before(arithmetic, bytes@, rows, callback, i as int, tensors),
            decreases descriptors@.len() - i,
        {
            assert(rows[i as int] == descriptors@[i as int]@);
            let tensor = match load::materialize_f32(bytes, descriptors[i], arithmetic) {
                Ok(tensor) => tensor,
                Err(error) => {
                    let answer = E::from(error);
                    assert(converted(error, answer));
                    assert(visit_ended(arithmetic, bytes@, rows, callback, i as int, answer));
                    return Err(answer);
                },
            };
            let ghost handed = tensor;
            let name = descriptors[i].name();
            let answer = handler(name, tensor);
            match answer {
                Ok(()) => {},
                Err(refusal) => {
                    assert(refused(callback, rows[i as int].name, handed, refusal));
                    assert(visit_ended(arithmetic, bytes@, rows, callback, i as int, refusal));
                    return Err(refusal);
                },
            }
            assert(accepted(callback, rows[i as int].name, handed));
            proof {
                let before = tensors;
                tensors = tensors.push(handed);
                assert forall|k: int| 0 <= k < i + 1 implies accepted(
                    callback,
                    rows[k].name,
                    #[trigger] tensors[k],
                ) by {
                    if k < i {
                        assert(tensors[k] == before[k]);
                    }
                }
                assert forall|k: int| 0 <= k < i + 1 implies load::tensor_answer(
                    arithmetic,
                    bytes@,
                    rows[k],
                    Ok(#[trigger] tensors[k]),
                ) by {
                    if k < i {
                        assert(tensors[k] == before[k]);
                    }
                }
            }
            i += 1;
        }
        Ok(())
    }

    /// Loads several tensors, handing each one on before the next is loaded:
    /// quantized matrices that can be are converted directly to affine layout,
    /// all other tensors are materialized.
    ///
    /// The callback receives tensors in the order of `names`.
    pub fn for_each_tensor<T: Copy, A: Arithmetic<T>, F, E>(
        &self,
        names: &[&str],
        group_size: usize,
        bits: usize,
        source: ModelSource<'_>,
        callback: F,
        arithmetic: &A,
    ) -> (result: Result<(), E>) where
        F: FnMut(&str, LoadedTensor<T>) -> Result<(), E>,
        E: From<ModelError>,

        requires
            forall|name: &str, tensor: LoadedTensor<T>| call_requires(callback, (name, tensor)),
        ensures
            match result {
                Ok(()) => {
                    &&& affine::parameter_fault(group_size as nat, bits as nat) is None
                    &&& index::changed_fault(self@, source) is None
                    &&& exists|descriptors: Seq<Descriptor>, tensors: Seq<LoadedTensor<T>>|
                        {
                            &&& #[trigger] load::resolved(self@, names@, descriptors)
                            &&& #[trigger] chosen_before(
                                arithmetic,
                                source.spec_bytes(),
                                descriptors,
                                group_size as nat,
                                bits as nat,
                                callback,
                                names@.len() as int,
                                tensors,
                            )
                        }
                },
                Err(answer) => {
                    ||| parameters_barred(group_size as nat, bits as nat, answer)
                    ||| {
                        &&& affine::parameter_fault(group_size as nat, bits as nat) is None
                        &&& visit_barred(self@, names@, source, answer)
                    }
                    ||| {
                        &&& affine::parameter_fault(group_size as nat, bits as nat) is None
                        &&& index::changed_fault(self@, source) is None
                        &&& exists|descriptors: Seq<Descriptor>, at: int|
                            {
                                &&& #[trigger] load::resolved(self@, names@, descriptors)
                                &&& #[trigger] choice_stopped(
                                    arithmetic,
                                    source.spec_bytes(),
                                    descriptors,
                                    group_size as nat,
                                    bits as nat,
                                    callback,
                                    at,
                                    answer,
                                )
                            }
                    }
                },
            },
    {
        let mut handler = callback;
        match affine::validate_affine_quantization(group_size, bits) {
            Ok(()) => {},
            Err(error) => {
                let answer = E::from(error);
                assert(converted(error, answer));
                return Err(answer);
            },
        }
        let descriptors = match self.resolve(names) {
            Ok(descriptors) => descriptors,
            Err(error) => {
                let answer = E::from(error);
                assert(converted(error, answer));
                return Err(answer);
            },
        };
        let ghost rows = load::views(descriptors@);
        let bytes = match self.validated_bytes(source) {
            Ok(bytes) => bytes,
            Err(error) => {
                let answer = E::from(error);
                assert(converted(error, answer));
                assert(load::resolved(self@, names@, rows));
                return Err(answer);
            },
        };
        let ghost mut tensors: Seq<LoadedTensor<T>> = seq![];
        let mut i: usize = 0;
        while i < descriptors.len()
            invariant
                i <= descriptors@.len(),
                rows == load::views(descriptors@),
                load::resolved(self@, names@, rows),
                affine::parameter_fault(group_size as nat, bits as nat) is None,
                index::changed_fault(self@, source) is None,
                bytes@ == source.spec_bytes(),
                handler == callback,
                forall|name: &str, tensor: LoadedTensor<T>|
                    call_requires(callback, (name, tensor)),
                chosen_before(
                    arithmetic,
                    bytes@,
                    rows,
                    group_size as nat,
                    bits as nat,
                    callback,
                    i as int,
                    tensors,
                ),
            decreases descriptors@.len() - i,
        {
            assert(rows[i as int] == descriptors@[i as int]@);
            let tensor = match quantized::select(
                bytes,
                descriptors[i],
                group_size,
                bits,
                arithmetic,
            ) {
                Ok(tensor) => tensor,
                Err(error) => {
                    let answer = E::from(error);
                    assert(converted(error, answer));
                    assert(choice_stopped(
                        arithmetic,
                        bytes@,
                        rows,
                        group_size as nat,
                        bits as nat,
                        callback,
                        i as int,
                        answer,
                    ));
                    return Err(answer);
                },
            };
            let ghost handed = tensor;
            let name = descriptors[i].name();
            let answer = handler(name, tensor);
            match answer {
                Ok(()) => {},
                Err(refusal) => {
                    assert(refused(callback, rows[i as int].name, handed, refusal));
                    assert(choice_stopped(
                        arithmetic,
                        bytes@,
                        rows,
                        group_size as nat,
                        bits as nat,
                        callback,
                        i as int,
                        refusal,
                    ));
                    return Err(refusal);
                },
            }
            assert(accepted(callback, rows[i as int].name, handed));
            proof {
                let before = tensors;
                tensors = tensors.push(handed);
                assert forall|k: int| 0 <= k < i + 1 implies chosen(
                    arithmetic,
                    bytes@,
                    rows[k],
                    group_size as nat,
                    bits as nat,
                    callback,
                    #[trigger] tensors[k],
                ) by {
                    if k < i {
                        assert(tensors[k] == before[k]);
                    }
                }
            }
            i += 1;
        }
        Ok(())
    }
}

} // verus!