//! What a model gives of the file that it was opened from.

use vstd::prelude::*;

use crate::gguf::limits::Limits;
use crate::gguf::types::{Entry, MetadataType, Scalar, Tensor, Value};
use crate::gguf::writing;
use crate::gguf::writing::Parts;
use crate::model::descriptor::{Descriptor, TensorDescriptor};
use crate::model::error::ModelError;
use crate::model::half;
use crate::model::index;
use crate::model::index::{GgufModel, ModelSource};
use crate::model::metadata;
use crate::model::metadata::MetadataScalar;

verus! {

/// The limits under which models are read.
pub open spec fn model_limits() -> Limits {
    Limits {
        max_string_bytes: 1_073_741_824,
        max_array_elements: 16_777_216,
        max_metadata_entries: 1_048_576,
        max_tensors: 1_048_576,
    }
}

/// A file of a size that fits into memory is made of `parts`.
pub open spec fn is_model_file(file: Seq<u8>, parts: Parts) -> bool {
    &&& file.len() <= usize::MAX
    &&& writing::is_made_of(model_limits(), file, parts)
    &&& writing::header(parts.version, parts.metadata, parts.table).len() + parts.alignment
        <= usize::MAX
}

/// The dimensions of a tensor can be used as lengths.
pub open spec fn has_lengths(item: Tensor) -> bool {
    forall|k: int| 0 <= k < item.shape.len() ==> 0 < #[trigger] item.shape[k] <= usize::MAX
}

/// An entry has a key and a value.
pub open spec fn has_entry(entries: Seq<Entry>, key: Seq<char>, value: Value) -> bool {
    entries.contains(Entry { key, value })
}

/// No entry has a key.
pub open spec fn lacks(entries: Seq<Entry>, key: Seq<char>) -> bool {
    forall|i: int| 0 <= i < entries.len() ==> (#[trigger] entries[i]).key != key
}

/// If an entry has a key, its value is a text.
pub open spec fn text_if_any(entries: Seq<Entry>, key: Seq<char>) -> bool {
    forall|i: int|
        0 <= i < entries.len() && (#[trigger] entries[i]).key == key ==> entries[i].value is Scalar
            && entries[i].value->Scalar_0 is String
}

proof fn lemma_value_from(entries: Seq<Entry>, key: Seq<char>, from: int)
    requires
        0 <= from <= entries.len(),
        forall|i: int, j: int|
            0 <= i < j < entries.len() ==> (#[trigger] entries[i]).key != (
            #[trigger] entries[j]).key,
        forall|i: int| 0 <= i < from ==> (#[trigger] entries[i]).key != key,
    ensures
        index::value_from(entries, key, from) is None <==> lacks(entries, key),
        forall|value: Value| #[trigger]
            has_entry(entries, key, value) <==> index::value_from(entries, key, from) == Some(
                value,
            ),
    decreases entries.len() - from,
{
    if from < entries.len() {
        if entries[from].key == key {
            assert forall|value: Value| #[trigger] has_entry(entries, key, value)
                <==> index::value_from(entries, key, from) == Some(value) by {
                if has_entry(entries, key, value) {
                    let i = choose|i: int|
                        0 <= i < entries.len() && entries[i] == (Entry { key, value });
                    if i != from {
                        assert(entries[i].key != entries[from].key);
                    }
                }
                if entries[from].value == value {
                    assert(entries[from] == (Entry { key, value }));
                    assert(entries.contains(entries[from]));
                }
            }
        } else {
            lemma_value_from(entries, key, from + 1);
        }
    } else {
        assert forall|value: Value| !#[trigger] has_entry(entries, key, value) by {
            if has_entry(entries, key, value) {
                let i = choose|i: int|
                    0 <= i < entries.len() && entries[i] == (Entry { key, value });
                assert(entries[i].key == key);
            }
        }
    }
}

proof fn lemma_value_of(entries: Seq<Entry>, key: Seq<char>)
    requires
        writing::entries_allowed(writing::rules_of(model_limits()), entries),
    ensures
        index::value_of(entries, key) is None <==> lacks(entries, key),
        forall|value: Value| #[trigger]
            has_entry(entries, key, value) <==> index::value_of(entries, key) == Some(value),
{
    lemma_value_from(entries, key, 0);
}

pub(crate) proof fn lemma_value_of_file(file: Seq<u8>, parts: Parts, key: Seq<char>)
    requires
        is_model_file(file, parts),
    ensures
        index::value_of(parts.metadata, key) is None <==> lacks(parts.metadata, key),
        forall|value: Value| #[trigger]
            has_entry(parts.metadata, key, value) <==> index::value_of(parts.metadata, key)
                == Some(value),
        forall|i: int|
            0 <= i < parts.metadata.len() ==> writing::value_allowed(
                writing::rules_of(model_limits()),
                (#[trigger] parts.metadata[i]).value,
            ),
{
    reveal(writing::is_made_of);
    lemma_value_of(parts.metadata, key);
    assert forall|i: int| 0 <= i < parts.metadata.len() implies writing::value_allowed(
        writing::rules_of(model_limits()),
        (#[trigger] parts.metadata[i]).value,
    ) by {
        assert(writing::entry_allowed(writing::rules_of(model_limits()), parts.metadata[i]));
    }
}

/// The names of the tensors of a file are different.
proof fn lemma_names(file: Seq<u8>, parts: Parts, i: int, j: int)
    requires
        is_model_file(file, parts),
        0 <= i < parts.table.len(),
        0 <= j < parts.table.len(),
        parts.table[i].name == parts.table[j].name,
    ensures
        i == j,
{
    reveal(writing::is_made_of);
    if i < j {
        assert(parts.table[i].name != parts.table[j].name);
    } else if j < i {
        assert(parts.table[j].name != parts.table[i].name);
    }
}

proof fn lemma_dimensions(shape: Seq<u64>, count: nat)
    requires
        count <= shape.len(),
    ensures
        index::dimension_fault(shape, count) is None <==> forall|k: int|
            0 <= k < count ==> #[trigger] shape[k] <= usize::MAX,
    decreases count,
{
    if count > 0 {
        lemma_dimensions(shape, (count - 1) as nat);
    }
}

proof fn lemma_lengths(item: Tensor, data_size: nat)
    requires
        item.offset + item.byte_len <= data_size,
    ensures
        index::tensor_fault(item, data_size) is None <==> has_lengths(item),
{
    lemma_dimensions(item.shape, item.shape.len());
    if has_lengths(item) {
        assert(!item.shape.contains(0));
    }
    if index::tensor_fault(item, data_size) is None {
        assert forall|k: int| 0 <= k < item.shape.len() implies 0 < #[trigger] item.shape[k]
            <= usize::MAX by {
            assert(item.shape.contains(item.shape[k]));
        }
    }
}

/// The data of a tensor ends before that of all tensors does.
proof fn lemma_inside(parts: Parts, at: int)
    requires
        writing::tensors_allowed(
            writing::rules_of(model_limits()),
            parts.alignment,
            parts.table,
        ),
        writing::padded(parts.table, parts.alignment, parts.data_size),
        0 <= at < parts.table.len(),
    ensures
        parts.table[at].offset + parts.table[at].byte_len <= parts.data_size,
    decreases parts.table.len() - at,
{
    if at + 1 < parts.table.len() {
        lemma_inside(parts, at + 1);
        let next = parts.table[at + 1];
        assert(writing::follows(
            writing::end_before(parts.table, at + 1),
            parts.alignment,
            next,
        ));
    }
}

proof fn lemma_tensors(
    document: crate::gguf::grammar::Document,
    parts: Parts,
    count: nat,
)
    requires
        writing::holds_parts(document, parts),
        writing::tensors_allowed(
            writing::rules_of(model_limits()),
            parts.alignment,
            parts.table,
        ),
        parts.table.len() > 0 ==> writing::padded(
            parts.table,
            parts.alignment,
            parts.data_size,
        ),
        count <= parts.table.len(),
    ensures
        index::tensors_fault(document, count) is None <==> forall|i: int|
            0 <= i < count ==> has_lengths(#[trigger] parts.table[i]),
    decreases count,
{
    if count > 0 {
        lemma_tensors(document, parts, (count - 1) as nat);
        lemma_inside(parts, count - 1);
        lemma_lengths(parts.table[count - 1], parts.data_size);
    }
}

/// A model can be opened.
pub open spec fn can_be_opened(parts: Parts) -> bool {
    &&& forall|i: int| 0 <= i < parts.table.len() ==> has_lengths(#[trigger] parts.table[i])
    &&& text_if_any(parts.metadata, "general.architecture"@)
    &&& text_if_any(parts.metadata, "general.name"@)
}

/// What a text that may be missing says of an entry.
pub open spec fn tells(entries: Seq<Entry>, key: Seq<char>, text: Option<Seq<char>>) -> bool {
    match text {
        Some(text) => has_entry(entries, key, Value::Scalar(Scalar::String(text))),
        None => lacks(entries, key),
    }
}

proof fn lemma_text(entries: Seq<Entry>, key: Seq<char>)
    requires
        writing::entries_allowed(writing::rules_of(model_limits()), entries),
    ensures
        index::text_entry(entries, key) is Ok <==> text_if_any(entries, key),
        index::text_entry(entries, key) matches Ok(text) ==> tells(entries, key, text),
{
    lemma_value_of(entries, key);
    match index::value_of(entries, key) {
        None => {},
        Some(value) => {
            assert(has_entry(entries, key, value));
            let i = choose|i: int|
                0 <= i < entries.len() && entries[i] == (Entry { key, value });
            assert forall|j: int| 0 <= j < entries.len() && (#[trigger] entries[j]).key
                == key implies entries[j].value == value by {
                if i < j {
                    assert(entries[i].key != entries[j].key);
                } else if j < i {
                    assert(entries[j].key != entries[i].key);
                }
            }
            assert(entries[i].key == key);
        },
    }
}

proof fn lemma_opened(file: Seq<u8>, parts: Parts, limit: nat)
    requires
        is_model_file(file, parts),
    ensures
        index::opened(file, limit) is Ok <==> can_be_opened(parts),
        index::opened(file, limit) matches Ok(model) ==> {
            &&& model.file_size == file.len()
            &&& model.max_file_bytes == limit
            &&& tells(parts.metadata, "general.architecture"@, model.architecture)
            &&& tells(parts.metadata, "general.name"@, model.name)
            &&& model.tensors.len() == parts.table.len()
            &&& forall|i: int|
                0 <= i < parts.table.len() ==> describes(#[trigger] model.tensors[i], parts, i)
        },
{
    writing::lemma_file_written(model_limits(), file, parts);
    reveal(writing::is_made_of);
    let document = crate::gguf::grammar::document(index::model_rules(), file)->Ok_0;
    lemma_tensors(document, parts, parts.table.len());
    lemma_text(parts.metadata, "general.architecture"@);
    lemma_text(parts.metadata, "general.name"@);
}

/// An entry of the index describes row number `i` of the tensor table.
pub open spec fn describes(descriptor: Descriptor, parts: Parts, i: int) -> bool {
    let row = parts.table[i];
    &&& descriptor.name == row.name
    &&& descriptor.shape.len() == row.shape.len()
    &&& forall|k: int|
        0 <= k < row.shape.len() ==> #[trigger] descriptor.shape[k] == row.shape[k] as usize
    &&& descriptor.value_type == row.value_type
    &&& descriptor.byte_offset == parts.data_offset + row.offset
    &&& descriptor.byte_len == row.byte_len
}

/// A model is opened if its tensors have lengths and its architecture and name, if
/// stated, are texts. It has the size of the file, and gives both texts.
pub proof fn law_models_tell_what_their_files_state(
    path: std::path::PathBuf,
    limit: u64,
    bytes: &[u8],
    parts: Parts,
    result: Result<GgufModel, ModelError>,
    size: u64,
    architecture: Option<&str>,
    name: Option<&str>,
)
    requires
        is_model_file(bytes@, parts),
        call_ensures(GgufModel::open, (path, limit, ModelSource::Bytes(bytes)), result),
        result matches Ok(model) ==> {
            &&& call_ensures(GgufModel::file_size, (&model,), size)
            &&& call_ensures(GgufModel::architecture, (&model,), architecture)
            &&& call_ensures(GgufModel::name, (&model,), name)
        },
    ensures
        result is Ok <==> limit > 0 && can_be_opened(parts),
        result is Ok ==> {
            &&& size == bytes@.len()
            &&& match architecture {
                Some(text) => has_entry(
                    parts.metadata,
                    "general.architecture"@,
                    Value::Scalar(Scalar::String(text@)),
                ),
                None => lacks(parts.metadata, "general.architecture"@),
            }
            &&& match name {
                Some(text) => has_entry(
                    parts.metadata,
                    "general.name"@,
                    Value::Scalar(Scalar::String(text@)),
                ),
                None => lacks(parts.metadata, "general.name"@),
            }
        },
{
    lemma_opened(bytes@, parts, limit as nat);
}

proof fn lemma_tensor_from(tensors: Seq<Descriptor>, name: Seq<char>, from: int)
    requires
        0 <= from <= tensors.len(),
        forall|i: int| 0 <= i < from ==> (#[trigger] tensors[i]).name != name,
    ensures
        match index::tensor_from(tensors, name, from) {
            Some(found) => exists|i: int| 0 <= i < tensors.len() && #[trigger] tensors[i] == found
                && found.name == name,
            None => forall|i: int| 0 <= i < tensors.len() ==> (#[trigger] tensors[i]).name != name,
        },
    decreases tensors.len() - from,
{
    if from < tensors.len() {
        if tensors[from].name != name {
            lemma_tensor_from(tensors, name, from + 1);
        }
    }
}

/// A tensor is found by its name, and described as the table of its file has it. No
/// other name is found.
pub proof fn law_tensors_are_found_by_name(
    path: std::path::PathBuf,
    limit: u64,
    bytes: &[u8],
    parts: Parts,
    result: Result<GgufModel, ModelError>,
    name: &str,
    found: Option<&TensorDescriptor>,
    at: int,
)
    requires
        is_model_file(bytes@, parts),
        call_ensures(GgufModel::open, (path, limit, ModelSource::Bytes(bytes)), result),
        result matches Ok(model) && call_ensures(GgufModel::tensor, (&model, name), found),
    ensures
        found is Some ==> exists|i: int|
            0 <= i < parts.table.len() && (#[trigger] parts.table[i]).name == name@ && describes(
                found->0@,
                parts,
                i,
            ),
        0 <= at < parts.table.len() && parts.table[at].name == name@ ==> found is Some && describes(
            found->0@,
            parts,
            at,
        ),
{
    lemma_opened(bytes@, parts, limit as nat);
    let tensors = result->Ok_0@.tensors;
    lemma_tensor_from(tensors, name@, 0);
    if let Some(descriptor) = found {
        let i = choose|i: int|
            0 <= i < tensors.len() && #[trigger] tensors[i] == descriptor@ && descriptor@.name
                == name@;
        assert(describes(tensors[i], parts, i));
        assert(parts.table[i].name == name@);
        if 0 <= at < parts.table.len() && parts.table[at].name == name@ {
            lemma_names(bytes@, parts, i, at);
        }
    } else if 0 <= at < parts.table.len() && parts.table[at].name == name@ {
        assert(describes(tensors[at], parts, at));
    }
}

/// The file that a model was opened from is still the same.
pub(crate) proof fn lemma_unchanged(file: Seq<u8>, parts: Parts, limit: nat, source: ModelSource<'_>)
    requires
        is_model_file(file, parts),
        index::opened(file, limit) is Ok,
        source is Bytes,
        source.spec_bytes() == file,
    ensures
        index::metadata_of(index::opened(file, limit)->Ok_0, source) == Ok::<
            Seq<Entry>,
            crate::model::error::ModelFault,
        >(parts.metadata),
{
    writing::lemma_file_written(model_limits(), file, parts);
}

/// A scalar is what the entry with its key holds. There is none for a key that no
/// entry has, and an array is refused.
pub proof fn law_scalars_are_those_of_the_entries(
    path: std::path::PathBuf,
    limit: u64,
    bytes: &[u8],
    parts: Parts,
    result: Result<GgufModel, ModelError>,
    key: &str,
    found: Result<Option<MetadataScalar>, ModelError>,
)
    requires
        is_model_file(bytes@, parts),
        call_ensures(GgufModel::open, (path, limit, ModelSource::Bytes(bytes)), result),
        result matches Ok(model) && call_ensures(
            GgufModel::metadata_scalar,
            (&model, key, ModelSource::Bytes(bytes)),
            found,
        ),
    ensures
        match found {
            Ok(Some(scalar)) => has_entry(parts.metadata, key@, Value::Scalar(scalar@)),
            Ok(None) => lacks(parts.metadata, key@),
            Err(_) => exists|value: Value|
                value is Array && #[trigger] has_entry(parts.metadata, key@, value),
        },
{
    let source = ModelSource::Bytes(bytes);
    lemma_unchanged(bytes@, parts, limit as nat, source);
    lemma_value_of_file(bytes@, parts, key@);
    if found is Err {
        let value = index::value_of(parts.metadata, key@)->0;
        assert(has_entry(parts.metadata, key@, value));
    }
}

/// Texts are those of the array with their key, in order, if there are no more than
/// asked for.
pub proof fn law_texts_are_those_of_the_array(
    path: std::path::PathBuf,
    limit: u64,
    bytes: &[u8],
    parts: Parts,
    result: Result<GgufModel, ModelError>,
    key: &str,
    most: u64,
    items: Seq<Scalar>,
    found: Result<Option<Vec<String>>, ModelError>,
)
    requires
        is_model_file(bytes@, parts),
        call_ensures(GgufModel::open, (path, limit, ModelSource::Bytes(bytes)), result),
        result matches Ok(model) && call_ensures(
            GgufModel::metadata_string_array,
            (&model, key, most, ModelSource::Bytes(bytes)),
            found,
        ),
        has_entry(
            parts.metadata,
            key@,
            (Value::Array { element_type: MetadataType::String, items }),
        ),
    ensures
        found is Ok <==> items.len() <= most,
        found matches Ok(texts) ==> {
            &&& texts is Some
            &&& texts->0@.len() == items.len()
            &&& forall|i: int|
                0 <= i < items.len() ==> items[i] == Scalar::String((#[trigger] texts->0@[i])@)
        },
{
    let source = ModelSource::Bytes(bytes);
    lemma_unchanged(bytes@, parts, limit as nat, source);
    lemma_value_of_file(bytes@, parts, key@);
    let value = Value::Array { element_type: MetadataType::String, items };
    let at = choose|i: int|
        0 <= i < parts.metadata.len() && parts.metadata[i] == (Entry { key: key@, value });
    assert(writing::value_allowed(
        writing::rules_of(model_limits()),
        parts.metadata[at].value,
    ));
    if let Ok(Some(texts)) = found {
        let views = texts@.map_values(|text: String| text@);
        assert(views == metadata::texts_of(items));
        assert(views.len() == items.len());
        assert forall|i: int| 0 <= i < items.len() implies items[i] == Scalar::String(
            (#[trigger] texts@[i])@,
        ) by {
            assert(writing::kind_of(items[i]) == 8);
            assert(views[i] == texts@[i]@);
            assert(metadata::texts_of(items)[i] == items[i]->String_0);
        }
    }
}

/// The bits of numbers are those of the array with their key, in order, if there
/// are no more than asked for and all numbers are finite.
pub proof fn law_numbers_are_those_of_the_array(
    path: std::path::PathBuf,
    limit: u64,
    bytes: &[u8],
    parts: Parts,
    result: Result<GgufModel, ModelError>,
    key: &str,
    most: u64,
    items: Seq<Scalar>,
    found: Result<Option<Vec<u32>>, ModelError>,
)
    requires
        is_model_file(bytes@, parts),
        call_ensures(GgufModel::open, (path, limit, ModelSource::Bytes(bytes)), result),
        result matches Ok(model) && call_ensures(
            GgufModel::metadata_f32_array,
            (&model, key, most, ModelSource::Bytes(bytes)),
            found,
        ),
        has_entry(
            parts.metadata,
            key@,
            (Value::Array { element_type: MetadataType::F32, items }),
        ),
    ensures
        found is Ok <==> items.len() <= most && forall|i: int|
            0 <= i < items.len() ==> ((#[trigger] items[i])->F32_0 / 8_388_608) % 256 != 255,
        found matches Ok(bits) ==> {
            &&& bits is Some
            &&& bits->0@.len() == items.len()
            &&& forall|i: int|
                0 <= i < items.len() ==> items[i] == Scalar::F32(#[trigger] bits->0@[i])
        },
{
    let source = ModelSource::Bytes(bytes);
    lemma_unchanged(bytes@, parts, limit as nat, source);
    lemma_value_of_file(bytes@, parts, key@);
    let value = Value::Array { element_type: MetadataType::F32, items };
    let at = choose|i: int|
        0 <= i < parts.metadata.len() && parts.metadata[i] == (Entry { key: key@, value });
    assert(writing::value_allowed(
        writing::rules_of(model_limits()),
        parts.metadata[at].value,
    ));
    let all = metadata::bits_of(items);
    assert(metadata::all_finite(all) <==> forall|i: int|
        0 <= i < items.len() ==> ((#[trigger] items[i])->F32_0 / 8_388_608) % 256 != 255) by {
        if metadata::all_finite(all) {
            assert forall|i: int| 0 <= i < items.len() implies ((#[trigger] items[i])->F32_0
                / 8_388_608) % 256 != 255 by {
                assert(half::is_finite_single(all[i] as nat));
            }
        }
        if forall|i: int|
            0 <= i < items.len() ==> ((#[trigger] items[i])->F32_0 / 8_388_608) % 256 != 255 {
            assert forall|i: int| 0 <= i < all.len() implies half::is_finite_single(
                #[trigger] all[i] as nat,
            ) by {
                assert((items[i]->F32_0 / 8_388_608) % 256 != 255);
            }
        }
    }
    assert forall|i: int| 0 <= i < items.len() implies items[i] == Scalar::F32(
        #[trigger] all[i],
    ) by {
        assert(writing::kind_of(items[i]) == 6);
    }
}

/// Several scalars are what each one is, in the order of their keys.
pub proof fn law_several_scalars_are_those_of_the_entries(
    path: std::path::PathBuf,
    limit: u64,
    bytes: &[u8],
    parts: Parts,
    result: Result<GgufModel, ModelError>,
    keys: &[&str],
    found: Result<Vec<Option<MetadataScalar>>, ModelError>,
    i: int,
)
    requires
        is_model_file(bytes@, parts),
        call_ensures(GgufModel::open, (path, limit, ModelSource::Bytes(bytes)), result),
        result matches Ok(model) && call_ensures(
            GgufModel::metadata_scalars,
            (&model, keys, ModelSource::Bytes(bytes)),
            found,
        ),
        0 <= i < keys@.len(),
    ensures
        match found {
            Ok(scalars) => {
                &&& scalars@.len() == keys@.len()
                &&& match scalars@[i] {
                    Some(scalar) => has_entry(
                        parts.metadata,
                        keys@[i]@,
                        Value::Scalar(scalar@),
                    ),
                    None => lacks(parts.metadata, keys@[i]@),
                }
            },
            Err(_) => exists|k: int, value: Value|
                {
                    &&& 0 <= k < keys@.len()
                    &&& value is Array
                    &&& #[trigger] has_entry(parts.metadata, keys@[k]@, value)
                },
        },
{
    let source = ModelSource::Bytes(bytes);
    lemma_unchanged(bytes@, parts, limit as nat, source);
    match found {
        Ok(scalars) => {
            lemma_value_of_file(bytes@, parts, keys@[i]@);
            assert(metadata::scalar_entry(parts.metadata, keys@[i]@) == Ok::<
                Option<Scalar>,
                crate::model::error::ModelFault,
            >(metadata::optional_scalar(scalars@[i])));
        },
        Err(error) => {
            let k = choose|at: int|
                {
                    &&& 0 <= at < keys@.len()
                    &&& metadata::scalar_entry(parts.metadata, (#[trigger] keys@[at])@) == Err::<
                        Option<Scalar>,
                        crate::model::error::ModelFault,
                    >(error@)
                    &&& forall|j: int|
                        0 <= j < at ==> metadata::scalar_entry(
                            parts.metadata,
                            (#[trigger] keys@[j])@,
                        ) is Ok
                };
            lemma_value_of_file(bytes@, parts, keys@[k]@);
            let value = index::value_of(parts.metadata, keys@[k]@)->0;
            assert(has_entry(parts.metadata, keys@[k]@, value));
        },
    }
}

} // verus!
