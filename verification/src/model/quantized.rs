//! Quantized matrices of a model, loaded without expanding them.

use vstd::prelude::*;

use crate::model::affine;
use crate::model::affine::AffineQuantizedMatrix;
use crate::model::descriptor::{Descriptor, TensorDescriptor};
use crate::model::error::{ModelError, ModelFault};
use crate::model::index;
use crate::model::index::{GgufModel, Index, ModelSource};
use crate::model::load;
use crate::model::matrix;
use crate::model::matrix::QuantizedMatrix;
use crate::tensor::arithmetic::Arithmetic;
use crate::tensor::dense::Tensor;
use crate::text;

verus! {

/// The first tensor that is no quantized matrix gives `fault`.
pub open spec fn matrix_refused(descriptors: Seq<Descriptor>, fault: ModelFault) -> bool {
    exists|at: int|
        {
            &&& 0 <= at < descriptors.len()
            &&& matrix::matrix_fault(#[trigger] descriptors[at]) == Some(fault)
            &&& forall|i: int|
                0 <= i < at ==> matrix::matrix_fault(#[trigger] descriptors[i]) is None
        }
}

/// The first matrix that is not in the file gives `fault`.
pub open spec fn matrix_absent(file: nat, descriptors: Seq<Descriptor>, fault: ModelFault) -> bool {
    exists|at: int|
        {
            &&& 0 <= at < descriptors.len()
            &&& matrix::load_fault(file, #[trigger] descriptors[at]) == Some(fault)
            &&& forall|i: int|
                0 <= i < at ==> matrix::load_fault(file, #[trigger] descriptors[i]) is None
        }
}

/// All tensors are quantized matrices.
pub open spec fn all_matrices(descriptors: Seq<Descriptor>) -> bool {
    forall|i: int|
        0 <= i < descriptors.len() ==> matrix::matrix_fault(#[trigger] descriptors[i]) is None
}

/// The matrix that a file holds for a tensor.
pub open spec fn matrix_loaded(
    file: Seq<u8>,
    descriptor: Descriptor,
    matrix: QuantizedMatrix,
) -> bool {
    &&& matrix::load_fault(file.len(), descriptor) is None
    &&& matrix@ == matrix::matrix_of(file, descriptor)
}

/// The matrices that a file holds for some tensors.
pub open spec fn matrices_loaded(
    file: Seq<u8>,
    descriptors: Seq<Descriptor>,
    matrices: Seq<QuantizedMatrix>,
) -> bool {
    &&& matrices.len() == descriptors.len()
    &&& forall|i: int|
        0 <= i < descriptors.len() ==> matrix_loaded(
            file,
            descriptors[i],
            #[trigger] matrices[i],
        )
}

/// How a request for quantized matrices is answered.
pub open spec fn matrices_answered(
    index: Index,
    names: Seq<&str>,
    source: ModelSource,
    result: Result<Vec<QuantizedMatrix>, ModelError>,
) -> bool {
    match result {
        Ok(matrices) => {
            &&& index::changed_fault(index, source) is None
            &&& exists|descriptors: Seq<Descriptor>| #[trigger]
                load::resolved(index, names, descriptors) && matrices_loaded(
                    source.spec_bytes(),
                    descriptors,
                    matrices@,
                )
        },
        Err(error) => {
            ||| load::name_missing(index, names, error@)
            ||| exists|descriptors: Seq<Descriptor>| #[trigger]
                load::resolved(index, names, descriptors) && matrix_refused(descriptors, error@)
            ||| exists|descriptors: Seq<Descriptor>| #[trigger]
                load::resolved(index, names, descriptors) && all_matrices(descriptors)
                    && index::changed_fault(index, source) == Some(error@)
            ||| {
                &&& index::changed_fault(index, source) is None
                &&& exists|descriptors: Seq<Descriptor>| #[trigger]
                    load::resolved(index, names, descriptors) && all_matrices(descriptors)
                        && matrix_absent(source.spec_bytes().len(), descriptors, error@)
            }
        },
    }
}

/// Checks that all tensors are quantized matrices.
fn check_matrices(descriptors: &Vec<&TensorDescriptor>) -> (result: Result<(), ModelError>)
    ensures
        match result {
            Ok(()) => all_matrices(load::views(descriptors@)),
            Err(error) => matrix_refused(load::views(descriptors@), error@),
        },
{
    let ghost rows = load::views(descriptors@);
    let mut i: usize = 0;
    while i < descriptors.len()
        invariant
            i <= descriptors@.len(),
            rows == load::views(descriptors@),
            forall|k: int| 0 <= k < i ==> matrix::matrix_fault(#[trigger] rows[k]) is None,
        decreases descriptors@.len() - i,
    {
        assert(rows[i as int] == descriptors@[i as int]@);
        if let Err(error) = matrix::validate_quantized_matrix_descriptor(descriptors[i]) {
            assert(matrix_refused(rows, error@));
            return Err(error);
        }
        i += 1;
    }
    Ok(())
}

impl GgufModel {
    /// Loads one rank-2 quantized matrix without expanding it.
    pub fn load_quantized(&self, name: &str, source: ModelSource<'_>) -> (result: Result<
        QuantizedMatrix,
        ModelError,
    >)
        ensures
            match index::tensor_named(self@, name@) {
                None => result matches Err(error) && error@ == ModelFault::TensorNotFound(name@),
                Some(descriptor) => {
                    let shape = matrix::matrix_fault(descriptor);
                    let changed = index::changed_fault(self@, source);
                    let absent = matrix::load_fault(source.spec_bytes().len(), descriptor);
                    if shape is Some {
                        result matches Err(error) && Some(error@) == shape
                    } else if changed is Some {
                        result matches Err(error) && Some(error@) == changed
                    } else if absent is Some {
                        result matches Err(error) && Some(error@) == absent
                    } else {
                        result matches Ok(matrix) && matrix@ == matrix::matrix_of(
                            source.spec_bytes(),
                            descriptor,
                        )
                    }
                },
            },
    {
        match self.tensor(name) {
            None => Err(ModelError::TensorNotFound(text::owned(name))),
            Some(descriptor) => {
                matrix::validate_quantized_matrix_descriptor(descriptor)?;
                let bytes = self.validated_bytes(source)?;
                matrix::materialize_quantized(bytes, descriptor)
            },
        }
    }

    /// Loads several rank-2 quantized matrices without expanding them.
    ///
    /// The returned matrices preserve the order of `names`; the file is
    /// digest-checked only once for the whole batch.
    pub fn load_quantized_many(&self, names: &[&str], source: ModelSource<'_>) -> (result: Result<
        Vec<QuantizedMatrix>,
        ModelError,
    >)
        ensures
            matrices_answered(self@, names@, source, result),
    {
        let descriptors = self.resolve(names)?;
        let ghost rows = load::views(descriptors@);
        check_matrices(&descriptors)?;
        let bytes = self.validated_bytes(source)?;
        let mut matrices: Vec<QuantizedMatrix> = Vec::new();
        let mut i: usize = 0;
        while i < descriptors.len()
            invariant
                i <= descriptors@.len(),
                rows == load::views(descriptors@),
                load::resolved(self@, names@, rows),
                all_matrices(rows),
                index::changed_fault(self@, source) is None,
                bytes@ == source.spec_bytes(),
                matrices@.len() == i,
                forall|k: int|
                    0 <= k < i ==> matrix_loaded(bytes@, rows[k], #[trigger] matrices@[k]),
            decreases descriptors@.len() - i,
        {
            assert(rows[i as int] == descriptors@[i as int]@);
            match matrix::materialize_quantized(bytes, descriptors[i]) {
                Ok(matrix) => {
                    matrices.push(matrix);
                },
                Err(error) => {
                    assert(matrix_absent(bytes@.len(), rows, error@)) by {
                        assert(matrix::load_fault(bytes@.len(), rows[i as int]) == Some(error@));
                        assert forall|k: int| 0 <= k < i implies matrix::load_fault(
                            bytes@.len(),
                            #[trigger] rows[k],
                        ) is None by {
                            assert(matrix_loaded(bytes@, rows[k], matrices@[k]));
                        }
                    }
                    return Err(error);
                },
            }
            i += 1;
        }
        assert(matrices_loaded(bytes@, rows, matrices@));
        Ok(matrices)
    }
}

/// Tensor data selected by [`GgufModel::for_each_tensor`].
#[derive(Debug, PartialEq)]
pub enum LoadedTensor<T> {
    /// A tensor decoded into the checked CPU representation.
    F32(Tensor<T>),
    /// A rank-2 quantized tensor converted directly to affine layout.
    AffineQuantized(AffineQuantizedMatrix<T>),
}

impl<T: Copy> Clone for LoadedTensor<T> {
    fn clone(&self) -> (copy: Self)
        ensures
            match (*self, copy) {
                (LoadedTensor::F32(tensor), LoadedTensor::F32(other)) => other@ == tensor@,
                (
                    LoadedTensor::AffineQuantized(matrix),
                    LoadedTensor::AffineQuantized(other),
                ) => other@ == matrix@,
                _ => false,
            },
    {
        match self {
            LoadedTensor::F32(tensor) => LoadedTensor::F32(tensor.clone()),
            LoadedTensor::AffineQuantized(matrix) => LoadedTensor::AffineQuantized(matrix.clone()),
        }
    }
}

/// How a tensor in a file is loaded: in affine layout if it can be, and decoded
/// otherwise.
pub open spec fn selected<T, A: Arithmetic<T>>(
    arithmetic: &A,
    file: Seq<u8>,
    descriptor: Descriptor,
    group_size: nat,
    bits: nat,
    result: Result<LoadedTensor<T>, ModelError>,
) -> bool {
    if affine::is_candidate(descriptor, group_size) {
        match result {
            Ok(LoadedTensor::AffineQuantized(matrix)) => affine::affine_answer(
                arithmetic,
                file,
                descriptor,
                group_size,
                bits,
                Ok(matrix),
            ),
            Ok(LoadedTensor::F32(_)) => false,
            Err(error) => affine::affine_answer(
                arithmetic,
                file,
                descriptor,
                group_size,
                bits,
                Err::<AffineQuantizedMatrix<T>, ModelError>(error),
            ),
        }
    } else {
        match result {
            Ok(LoadedTensor::F32(tensor)) => load::tensor_answer(
                arithmetic,
                file,
                descriptor,
                Ok(tensor),
            ),
            Ok(LoadedTensor::AffineQuantized(_)) => false,
            Err(error) => load::tensor_answer(
                arithmetic,
                file,
                descriptor,
                Err::<Tensor<T>, ModelError>(error),
            ),
        }
    }
}

/// Loads a tensor in affine layout if it can be, and decodes it otherwise.
pub(crate) fn select<T: Copy, A: Arithmetic<T>>(
    file: &[u8],
    descriptor: &TensorDescriptor,
    group_size: usize,
    bits: usize,
    arithmetic: &A,
) -> (result: Result<LoadedTensor<T>, ModelError>)
    requires
        group_size > 0,
    ensures
        selected(arithmetic, file@, descriptor@, group_size as nat, bits as nat, result),
{
    if affine::affine_quantized_candidate(descriptor, group_size) {
        match affine::materialize_affine_quantized(
            file,
            descriptor,
            group_size,
            bits,
            arithmetic,
        ) {
            Ok(matrix) => Ok(LoadedTensor::AffineQuantized(matrix)),
            Err(error) => Err(error),
        }
    } else {
        match load::materialize_f32(file, descriptor, arithmetic) {
            Ok(tensor) => Ok(LoadedTensor::F32(tensor)),
            Err(error) => Err(error),
        }
    }
}

} // verus!
