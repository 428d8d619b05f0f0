//! What requests for tensors and for metadata are refused for.

use vstd::prelude::*;

use crate::digest;
use crate::gguf::types::{MetadataType, Value};
use crate::gguf::writing::Parts;
use crate::model::affine::AffineQuantizedMatrix;
use crate::model::descriptor::Descriptor;
use crate::model::error::{ModelError, ModelFault};
use crate::model::index;
use crate::model::index::{GgufModel, ModelSource};
use crate::model::matrix::QuantizedMatrix;
use crate::model::opening_laws;
use crate::tensor::arithmetic::Arithmetic;
use crate::tensor::dense::Tensor;

verus! {

proof fn lemma_missing(tensors: Seq<Descriptor>, name: Seq<char>, from: int)
    requires
        forall|i: int| 0 <= i < tensors.len() ==> (#[trigger] tensors[i]).name != name,
        0 <= from,
    ensures
        index::tensor_from(tensors, name, from) is None,
    decreases tensors.len() - from,
{
    if from < tensors.len() {
        lemma_missing(tensors, name, from + 1);
    }
}

/// A tensor that a model does not have is refused by the name that was asked for.
pub proof fn law_missing_tensors_are_named<T: Copy, A: Arithmetic<T>>(
    arithmetic: &A,
    model: &GgufModel,
    name: &str,
    size: usize,
    bits: usize,
    input: &[T],
    source: ModelSource<'_>,
    loaded: Result<Tensor<T>, ModelError>,
    affine: Result<AffineQuantizedMatrix<T>, ModelError>,
    stored: Result<QuantizedMatrix, ModelError>,
    product: Result<Vec<T>, ModelError>,
)
    requires
        forall|i: int|
            0 <= i < model@.tensors.len() ==> (#[trigger] model@.tensors[i]).name != name@,
    ensures
        call_ensures(GgufModel::load_f32::<T, A>, (model, name, source, arithmetic), loaded)
            ==> loaded is Err && loaded->Err_0@ == ModelFault::TensorNotFound(name@),
        call_ensures(
            GgufModel::load_affine_quantized::<T, A>,
            (model, name, size, bits, source, arithmetic),
            affine,
        ) ==> affine is Err && affine->Err_0@ == ModelFault::TensorNotFound(name@),
        call_ensures(GgufModel::load_quantized, (model, name, source), stored) ==> stored is Err
            && stored->Err_0@ == ModelFault::TensorNotFound(name@),
        call_ensures(
            GgufModel::matmul_f32_quantized::<T, A>,
            (model, name, input, source, arithmetic),
            product,
        ) ==> product is Err && product->Err_0@ == ModelFault::TensorNotFound(name@),
{
    lemma_missing(model@.tensors, name@, 0);
}

/// A file that is not the one that a model was opened with is refused as changed.
pub proof fn law_changed_files_are_refused<T: Copy, A: Arithmetic<T>>(
    arithmetic: &A,
    model: &GgufModel,
    name: &str,
    bytes: &[u8],
    size: usize,
    bits: usize,
    loaded: Result<Tensor<T>, ModelError>,
    affine: Result<AffineQuantizedMatrix<T>, ModelError>,
)
    requires
        index::tensor_named(model@, name@) is Some,
        digest::sha256_of(bytes@)@ != model@.digest,
    ensures
        call_ensures(
            GgufModel::load_f32::<T, A>,
            (model, name, ModelSource::Bytes(bytes), arithmetic),
            loaded,
        ) ==> loaded is Err && loaded->Err_0@ == ModelFault::ContentChanged,
        call_ensures(
            GgufModel::load_affine_quantized::<T, A>,
            (model, name, size, bits, ModelSource::Bytes(bytes), arithmetic),
            affine,
        ) ==> affine is Err && affine->Err_0@ == ModelFault::ContentChanged,
{
}

/// An array of texts that is too long is refused with its length and with the limit.
/// One of numbers is no array of texts, and a scalar is no array at all.
pub proof fn law_arrays_are_checked(
    path: std::path::PathBuf,
    limit: u64,
    bytes: &[u8],
    parts: Parts,
    result: Result<GgufModel, ModelError>,
    key: &str,
    most: u64,
    value: Value,
    texts: Result<Option<Vec<String>>, ModelError>,
    numbers: Result<Option<Vec<u32>>, ModelError>,
)
    requires
        opening_laws::is_model_file(bytes@, parts),
        call_ensures(GgufModel::open, (path, limit, ModelSource::Bytes(bytes)), result),
        result matches Ok(model) && call_ensures(
            GgufModel::metadata_string_array,
            (&model, key, most, ModelSource::Bytes(bytes)),
            texts,
        ) && call_ensures(
            GgufModel::metadata_f32_array,
            (&model, key, most, ModelSource::Bytes(bytes)),
            numbers,
        ),
        opening_laws::has_entry(parts.metadata, key@, value),
    ensures
        value is Scalar ==> {
            &&& texts is Err && texts->Err_0@ == ModelFault::MetadataArray(key@)
            &&& numbers is Err && numbers->Err_0@ == ModelFault::MetadataArray(key@)
        },
        value matches Value::Array { element_type, items } ==> {
            let longer = ModelFault::MetadataArrayLimit { key: key@, len: items.len(), max: most as nat };
            &&& element_type == MetadataType::String && items.len() > most ==> texts is Err
                && texts->Err_0@ == longer
            &&& element_type == MetadataType::F32 && items.len() > most ==> numbers is Err
                && numbers->Err_0@ == longer
            &&& element_type == MetadataType::F32 ==> texts is Err && texts->Err_0@ == (
            ModelFault::MetadataArrayType { key: key@, expected: "String"@, actual: "F32"@ })
            &&& element_type == MetadataType::String ==> numbers is Err && numbers->Err_0@ == (
            ModelFault::MetadataArrayType { key: key@, expected: "F32"@, actual: "String"@ })
        },
{
    let source = ModelSource::Bytes(bytes);
    opening_laws::lemma_unchanged(bytes@, parts, limit as nat, source);
    opening_laws::lemma_value_of_file(bytes@, parts, key@);
}

} // verus!
