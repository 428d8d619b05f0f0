//! Tensors of a model, loaded out of its file.

use vstd::prelude::*;

use crate::model::affine;
use crate::model::affine::AffineQuantizedMatrix;
use crate::model::blocks;
use crate::model::decode;
use crate::model::descriptor;
use crate::model::descriptor::{Descriptor, TensorDescriptor};
use crate::model::error;
use crate::model::error::{ModelError, ModelFault};
use crate::model::index;
use crate::model::index::{GgufModel, Index, ModelSource};
use crate::tensor::arithmetic::Arithmetic;
use crate::tensor::dense;
use crate::tensor::dense::{Contents, Tensor};
use crate::tensor::error as tensor_error;
use crate::tensor::error::TensorFault;
use crate::text;

verus! {

/// Why the weights of a tensor cannot be decoded.
pub open spec fn stored_fault(file: nat, descriptor: Descriptor) -> Option<ModelFault> {
    let range = descriptor::range_fault(descriptor.byte_offset, descriptor.byte_len, file);
    if blocks::layout_of(descriptor.value_type) is None {
        Some(
            ModelFault::UnsupportedTensorType {
                name: descriptor.name,
                value_type: descriptor.value_type,
            },
        )
    } else if descriptor.byte_offset <= usize::MAX && descriptor.byte_len > usize::MAX {
        Some(ModelFault::Shape("tensor byte length exceeds usize"@))
    } else if range is Some {
        range
    } else {
        decode::decode_fault(descriptor.value_type, descriptor.byte_len)
    }
}

/// `contents` are what a file holds for a tensor.
pub open spec fn stored_contents<T, A: Arithmetic<T>>(
    arithmetic: &A,
    file: Seq<u8>,
    descriptor: Descriptor,
    contents: Contents<T>,
) -> bool {
    &&& contents.shape == descriptor.shape
    &&& decode::decoded(
        arithmetic,
        descriptor.value_type,
        descriptor::range_of(file, descriptor.byte_offset, descriptor.byte_len),
        contents.data,
    )
}

/// A weight of a tensor is not finite.
pub open spec fn weight_refused<T, A: Arithmetic<T>>(
    arithmetic: &A,
    file: Seq<u8>,
    descriptor: Descriptor,
    fault: ModelFault,
) -> bool {
    exists|contents: Contents<T>, index: int|
        {
            &&& #[trigger] stored_contents(arithmetic, file, descriptor, contents)
            &&& #[trigger] dense::first_not_finite(arithmetic, contents.data, index)
            &&& fault == ModelFault::Shape(
                tensor_error::tensor_fault_text(
                    TensorFault::NonFiniteInput { index: index as nat },
                ),
            )
        }
}

/// How a request to decode a tensor in a file is answered.
pub open spec fn tensor_answer<T, A: Arithmetic<T>>(
    arithmetic: &A,
    file: Seq<u8>,
    descriptor: Descriptor,
    result: Result<Tensor<T>, ModelError>,
) -> bool {
    let count = decode::weight_count(descriptor.value_type, descriptor.byte_len);
    let length = dense::length_fault(descriptor.shape, count);
    if stored_fault(file.len(), descriptor) is Some {
        result matches Err(error) && Some(error@) == stored_fault(file.len(), descriptor)
    } else if length is Some {
        result matches Err(error) && error@ == ModelFault::Shape(
            tensor_error::tensor_fault_text(length->0),
        )
    } else {
        match result {
            Ok(tensor) => {
                &&& stored_contents(arithmetic, file, descriptor, tensor@)
                &&& dense::finite_before(arithmetic, tensor@.data, tensor@.data.len() as int)
            },
            Err(error) => weight_refused::<T, A>(arithmetic, file, descriptor, error@),
        }
    }
}

/// Decodes a tensor in a file.
pub(crate) fn materialize_f32<T: Copy, A: Arithmetic<T>>(
    file: &[u8],
    descriptor: &TensorDescriptor,
    arithmetic: &A,
) -> (result: Result<Tensor<T>, ModelError>)
    ensures
        tensor_answer(arithmetic, file@, descriptor@, result),
{
    let value_type = descriptor.value_type();
    if blocks::block_layout(value_type.raw()).is_none() {
        return Err(
            ModelError::UnsupportedTensorType { name: text::owned(descriptor.name()), value_type },
        );
    }
    let offset: u64 = descriptor.byte_offset();
    let length: u64 = descriptor.byte_len();
    if offset > usize::MAX as u64 {
        return Err(error::shape_error("tensor offset exceeds usize"));
    }
    if length > usize::MAX as u64 {
        return Err(error::shape_error("tensor byte length exceeds usize"));
    }
    let data = descriptor::tensor_range(file, offset, length as usize)?;
    let values: Vec<T> = decode::decode_values(value_type, data, arithmetic)?;
    let mut shape: Vec<usize> = Vec::new();
    let mut i: usize = 0;
    while i < descriptor.shape().len()
        invariant
            i <= descriptor@.shape.len(),
            shape@ == descriptor@.shape.take(i as int),
        decreases descriptor@.shape.len() - i,
    {
        shape.push(descriptor.shape()[i]);
        assert(shape@ =~= descriptor@.shape.take(i + 1));
        i += 1;
    }
    assert(shape@ =~= descriptor@.shape);
    let tensor = match Tensor::from_data(shape, values) {
        Ok(tensor) => tensor,
        Err(error) => {
            return Err(ModelError::Shape(error.message()));
        },
    };
    assert(stored_contents(arithmetic, file@, descriptor@, tensor@));
    match tensor.validate_finite(arithmetic) {
        Ok(()) => Ok(tensor),
        Err(error) => {
            assert(weight_refused::<T, A>(
                arithmetic,
                file@,
                descriptor@,
                ModelFault::Shape(tensor_error::tensor_fault_text(error@)),
            ));
            Err(ModelError::Shape(error.message()))
        },
    }
}

/// The tensors with given names.
pub open spec fn resolved(index: Index, names: Seq<&str>, tensors: Seq<Descriptor>) -> bool {
    &&& tensors.len() == names.len()
    &&& forall|i: int|
        0 <= i < names.len() ==> index::tensor_named(index, names[i]@) == Some(
            #[trigger] tensors[i],
        )
}

/// The first name that no tensor has gives `fault`.
pub open spec fn name_missing(index: Index, names: Seq<&str>, fault: ModelFault) -> bool {
    exists|at: int|
        {
            &&& 0 <= at < names.len()
            &&& fault == ModelFault::TensorNotFound((#[trigger] names[at])@)
            &&& index::tensor_named(index, names[at]@) is None
            &&& forall|i: int|
                0 <= i < at ==> index::tensor_named(index, (#[trigger] names[i])@) is Some
        }
}

/// The views of some descriptors.
pub open spec fn views(tensors: Seq<&TensorDescriptor>) -> Seq<Descriptor> {
    tensors.map_values(|tensor: &TensorDescriptor| tensor@)
}

/// The first `count` tensors could be decoded.
pub open spec fn decoded_before<T, A: Arithmetic<T>>(
    arithmetic: &A,
    file: Seq<u8>,
    descriptors: Seq<Descriptor>,
    count: int,
    tensors: Seq<Tensor<T>>,
) -> bool {
    &&& tensors.len() == count
    &&& forall|i: int|
        0 <= i < count ==> tensor_answer(
            arithmetic,
            file,
            descriptors[i],
            Ok(#[trigger] tensors[i]),
        )
}

/// `at` is the first tensor that cannot be decoded.
pub open spec fn decoding_stops<T, A: Arithmetic<T>>(
    arithmetic: &A,
    file: Seq<u8>,
    descriptors: Seq<Descriptor>,
    at: int,
    error: ModelError,
) -> bool {
    &&& 0 <= at < descriptors.len()
    &&& tensor_answer(arithmetic, file, descriptors[at], Err::<Tensor<T>, ModelError>(error))
    &&& exists|tensors: Seq<Tensor<T>>| #[trigger]
        decoded_before(arithmetic, file, descriptors, at, tensors)
}

impl GgufModel {
    /// Finds several tensor descriptors by exact name.
    pub fn resolve(&self, names: &[&str]) -> (result: Result<Vec<&TensorDescriptor>, ModelError>)
        ensures
            match result {
                Ok(tensors) => resolved(self@, names@, views(tensors@)),
                Err(error) => name_missing(self@, names@, error@),
            },
    {
        let mut tensors: Vec<&TensorDescriptor> = Vec::new();
        let mut i: usize = 0;
        while i < names.len()
            invariant
                i <= names@.len(),
                tensors@.len() == i,
                forall|k: int|
                    0 <= k < i ==> index::tensor_named(self@, names@[k]@) == Some(
                        (#[trigger] tensors@[k])@,
                    ),
            decreases names@.len() - i,
        {
            match self.tensor(names[i]) {
                Some(tensor) => {
                    tensors.push(tensor);
                },
                None => {
                    let error = ModelError::TensorNotFound(text::owned(names[i]));
                    assert(name_missing(self@, names@, error@)) by {
                        assert(error@ == ModelFault::TensorNotFound(names@[i as int]@));
                        assert forall|k: int| 0 <= k < i implies index::tensor_named(
                            self@,
                            (#[trigger] names@[k])@,
                        ) is Some by {
                            assert(index::tensor_named(self@, names@[k]@) == Some(tensors@[k]@));
                        }
                    }
                    return Err(error);
                },
            }
            i += 1;
        }
        Ok(tensors)
    }

    /// Materializes one tensor in the checked CPU tensor engine.
    pub fn load_f32<T: Copy, A: Arithmetic<T>>(
        &self,
        name: &str,
        source: ModelSource<'_>,
        arithmetic: &A,
    ) -> (result: Result<Tensor<T>, ModelError>)
        ensures
            match index::tensor_named(self@, name@) {
                None => result matches Err(error) && error@ == ModelFault::TensorNotFound(name@),
                Some(descriptor) => match index::changed_fault(self@, source) {
                    Some(fault) => result matches Err(error) && error@ == fault,
                    None => tensor_answer(arithmetic, source.spec_bytes(), descriptor, result),
                },
            },
    {
        match self.tensor(name) {
            None => Err(ModelError::TensorNotFound(text::owned(name))),
            Some(descriptor) => {
                let bytes = self.validated_bytes(source)?;
                materialize_f32(bytes, descriptor, arithmetic)
            },
        }
    }

    /// Materializes several tensors while hashing the file only once.
    ///
    /// The returned tensors preserve the order of `names`. Duplicate names
    /// are allowed and produce duplicate owned tensors.
    pub fn load_f32_many<T: Copy, A: Arithmetic<T>>(
        &self,
        names: &[&str],
        source: ModelSource<'_>,
        arithmetic: &A,
    ) -> (result: Result<Vec<Tensor<T>>, ModelError>)
        ensures
            loads_answered(arithmetic, self@, names@, source, result),
    {
        let descriptors = self.resolve(names)?;
        let bytes = self.validated_bytes(source)?;
        let mut tensors: Vec<Tensor<T>> = Vec::new();
        let mut i: usize = 0;
        while i < descriptors.len()
            invariant
                i <= descriptors@.len(),
                resolved(self@, names@, views(descriptors@)),
                index::changed_fault(self@, source) is None,
                bytes@ == source.spec_bytes(),
                decoded_before(arithmetic, bytes@, views(descriptors@), i as int, tensors@),
            decreases descriptors@.len() - i,
        {
            match materialize_f32(bytes, descriptors[i], arithmetic) {
                Ok(tensor) => {
                    tensors.push(tensor);
                },
                Err(error) => {
                    assert(decoding_stops::<T, A>(
                        arithmetic,
                        bytes@,
                        views(descriptors@),
                        i as int,
                        error,
                    ));
                    return Err(error);
                },
            }
            i += 1;
        }
        Ok(tensors)
    }

    /// Converts one rank-2 quantized matrix directly to affine layout.
    ///
    /// The matrix is decoded one input group at a time.
    pub fn load_affine_quantized<T: Copy, A: Arithmetic<T>>(
        &self,
        name: &str,
        group_size: usize,
        bits: usize,
        source: ModelSource<'_>,
        arithmetic: &A,
    ) -> (result: Result<AffineQuantizedMatrix<T>, ModelError>)
        ensures
            match index::tensor_named(self@, name@) {
                None => result matches Err(error) && error@ == ModelFault::TensorNotFound(name@),
                Some(descriptor) => match index::changed_fault(self@, source) {
                    Some(fault) => result matches Err(error) && error@ == fault,
                    None => affine::affine_answer(
                        arithmetic,
                        source.spec_bytes(),
                        descriptor,
                        group_size as nat,
                        bits as nat,
                        result,
                    ),
                },
            },
    {
        match self.tensor(name) {
            None => Err(ModelError::TensorNotFound(text::owned(name))),
            Some(descriptor) => {
                let bytes = self.validated_bytes(source)?;
                affine::materialize_affine_quantized(
                    bytes,
                    descriptor,
                    group_size,
                    bits,
                    arithmetic,
                )
            },
        }
    }
}

/// How a request to load several tensors is answered.
pub open spec fn loads_answered<T, A: Arithmetic<T>>(
    arithmetic: &A,
    index: Index,
    names: Seq<&str>,
    source: ModelSource,
    result: Result<Vec<Tensor<T>>, ModelError>,
) -> bool {
    match result {
        Ok(tensors) => {
            &&& index::changed_fault(index, source) is None
            &&& exists|descriptors: Seq<Descriptor>| #[trigger]
                resolved(index, names, descriptors) && decoded_before(
                    arithmetic,
                    source.spec_bytes(),
                    descriptors,
                    names.len() as int,
                    tensors@,
                )
        },
        Err(error) => {
            ||| name_missing(index, names, error@)
            ||| exists|descriptors: Seq<Descriptor>| #[trigger]
                resolved(index, names, descriptors) && index::changed_fault(index, source) == Some(
                    error@,
                )
            ||| {
                &&& index::changed_fault(index, source) is None
                &&& exists|descriptors: Seq<Descriptor>, at: int|
                    {
                        &&& #[trigger] resolved(index, names, descriptors)
                        &&& #[trigger] decoding_stops::<T, A>(
                            arithmetic,
                            source.spec_bytes(),
                            descriptors,
                            at,
                            error,
                        )
                    }
            }
        },
    }
}

} // verus!
