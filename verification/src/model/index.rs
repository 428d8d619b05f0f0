//! The index of a model, and what is read of the model through it.

use vstd::prelude::*;
use vstd::string::*;

use crate::digest;
use crate::gguf::error as gguf_error;
use crate::gguf::file::Gguf;
use crate::gguf::grammar;
use crate::gguf::grammar::{Document, Rules};
use crate::gguf::limits::Limits;
use crate::gguf::types::{Entry, MetadataValue, Scalar, ScalarValue, Tensor, TensorInfo, Value};
use crate::model::descriptor;
use crate::model::descriptor::{Descriptor, TensorDescriptor};
use crate::model::error;
use crate::model::error::{ModelError, ModelFault};
use crate::path;
use crate::text;

verus! {

/// Default maximum size for a mapped GGUF model.
pub const DEFAULT_MODEL_BYTE_LIMIT: u64 = 1_099_511_627_776;

/// What came of mapping a model file.
pub enum ModelSource<'a> {
    /// The file could not be mapped, for a reason in words.
    Unreadable(String),
    /// The path leads to something else than a regular file.
    NotRegular,
    /// The bytes of the file.
    Bytes(&'a [u8]),
}

/// Why a model file has no bytes.
pub open spec fn source_fault(source: ModelSource) -> Option<ModelFault> {
    match source {
        ModelSource::Unreadable(reason) => Some(ModelFault::Io(reason@)),
        ModelSource::NotRegular => Some(ModelFault::Io("model path is not a regular file"@)),
        ModelSource::Bytes(_) => None,
    }
}

impl<'a> ModelSource<'a> {
    /// The bytes of the file.
    pub open spec fn spec_bytes(self) -> Seq<u8> {
        match self {
            ModelSource::Bytes(bytes) => bytes@,
            _ => seq![],
        }
    }

    fn bytes(self) -> (result: Result<&'a [u8], ModelError>)
        ensures
            match result {
                Ok(bytes) => source_fault(self) is None && bytes@ == self.spec_bytes(),
                Err(error) => source_fault(self) == Some(error@),
            },
    {
        match self {
            ModelSource::Unreadable(reason) => Err(ModelError::Io(reason)),
            ModelSource::NotRegular => Err(
                ModelError::Io(text::owned("model path is not a regular file")),
            ),
            ModelSource::Bytes(bytes) => Ok(bytes),
        }
    }
}

/// A validated GGUF model index with content-bound tensor materialization.
#[derive(Debug, PartialEq, Eq)]
pub struct GgufModel {
    path: std::path::PathBuf,
    file_size: u64,
    digest: [u8; 32],
    architecture: Option<String>,
    name: Option<String>,
    tensors: Vec<TensorDescriptor>,
    max_file_bytes: u64,
}

/// A model index, as a mathematical value.
#[verifier::ext_equal]
pub struct Index {
    pub file_size: nat,
    pub digest: Seq<u8>,
    pub architecture: Option<Seq<char>>,
    pub name: Option<Seq<char>>,
    pub tensors: Seq<Descriptor>,
    pub max_file_bytes: nat,
}

/// A text that may be missing, as a mathematical value.
pub open spec fn optional_text(text: Option<String>) -> Option<Seq<char>> {
    match text {
        Some(text) => Some(text@),
        None => None,
    }
}

impl View for GgufModel {
    type V = Index;

    closed spec fn view(&self) -> Index {
        Index {
            file_size: self.file_size as nat,
            digest: self.digest@,
            architecture: optional_text(self.architecture),
            name: optional_text(self.name),
            tensors: self.tensors@.map_values(|tensor: TensorDescriptor| tensor@),
            max_file_bytes: self.max_file_bytes as nat,
        }
    }
}

/// Copies a text that may be missing.
fn copy_text(text: &Option<String>) -> (copy: Option<String>)
    ensures
        optional_text(copy) == optional_text(*text),
{
    match text {
        Some(text) => Some(text::owned(text.as_str())),
        None => None,
    }
}

impl Clone for GgufModel {
    fn clone(&self) -> (copy: Self)
        ensures
            copy@ == self@,
            copy.spec_path() == self.spec_path(),
    {
        let mut tensors: Vec<TensorDescriptor> = Vec::new();
        let mut i: usize = 0;
        while i < self.tensors.len()
            invariant
                i <= self.tensors@.len(),
                tensors@.len() == i,
                forall|k: int| 0 <= k < i ==> (#[trigger] tensors@[k])@ == self.tensors@[k]@,
            decreases self.tensors@.len() - i,
        {
            tensors.push(self.tensors[i].clone());
            i += 1;
        }
        let copy = GgufModel {
            path: path::copy_path(&self.path),
            file_size: self.file_size,
            digest: self.digest,
            architecture: copy_text(&self.architecture),
            name: copy_text(&self.name),
            tensors,
            max_file_bytes: self.max_file_bytes,
        };
        assert(copy@.tensors =~= self@.tensors);
        copy
    }
}

/// The rules that models are read by.
pub open spec fn model_rules() -> Rules {
    Rules {
        limits: Limits {
            max_string_bytes: 1_073_741_824,
            max_array_elements: 16_777_216,
            max_metadata_entries: 1_048_576,
            max_tensors: 1_048_576,
        },
        header_limit: None,
    }
}

/// The value with a given key, looked for from entry number `from` on.
pub open spec fn value_from(entries: Seq<Entry>, key: Seq<char>, from: int) -> Option<Value>
    decreases entries.len() - from,
{
    if from < 0 || from >= entries.len() {
        None
    } else if entries[from].key == key {
        Some(entries[from].value)
    } else {
        value_from(entries, key, from + 1)
    }
}

/// The value with a given key.
pub open spec fn value_of(entries: Seq<Entry>, key: Seq<char>) -> Option<Value> {
    value_from(entries, key, 0)
}

/// The first entry with a key holds its value.
proof fn lemma_value_from(entries: Seq<Entry>, key: Seq<char>, from: int, at: int)
    requires
        0 <= from <= at <= entries.len(),
        forall|j: int| from <= j < at ==> (#[trigger] entries[j]).key != key,
    ensures
        value_from(entries, key, from) == value_from(entries, key, at),
    decreases at - from,
{
    if from < at {
        assert(entries[from].key != key);
        lemma_value_from(entries, key, from + 1, at);
    }
}

/// Looks for the value with a given key.
pub(crate) fn find_value<'a, 'b>(gguf: &'b Gguf<'a>, key: &str) -> (value: Option<&'b MetadataValue<'a>>)
    ensures
        match value {
            Some(value) => value_of(gguf@.metadata, key@) == Some(value@),
            None => value_of(gguf@.metadata, key@) is None,
        },
{
    let value = gguf.metadata_value(key);
    proof {
        let entries = gguf@.metadata;
        match value {
            Some(found) => {
                let at = choose|i: int|
                    0 <= i < entries.len() && #[trigger] entries[i] == (Entry {
                        key: key@,
                        value: found@,
                    }) && forall|j: int| 0 <= j < i ==> (#[trigger] entries[j]).key != key@;
                lemma_value_from(entries, key@, 0, at);
            },
            None => {
                assert forall|j: int| 0 <= j < entries.len() implies (#[trigger] entries[j]).key
                    != key@ by {}
                lemma_value_from(entries, key@, 0, entries.len() as int);
            },
        }
    }
    value
}

/// The text with a given key, which may be missing.
pub open spec fn text_entry(entries: Seq<Entry>, key: Seq<char>) -> Result<
    Option<Seq<char>>,
    ModelFault,
> {
    match value_of(entries, key) {
        None => Ok(None),
        Some(Value::Scalar(Scalar::String(text))) => Ok(Some(text)),
        Some(_) => Err(ModelFault::InvalidUtf8Metadata(key)),
    }
}

/// Reads the text with a given key.
fn metadata_string(gguf: &Gguf<'_>, key: &'static str) -> (result: Result<
    Option<String>,
    ModelError,
>)
    ensures
        match result {
            Ok(text) => text_entry(gguf@.metadata, key@) == Ok::<Option<Seq<char>>, ModelFault>(
                optional_text(text),
            ),
            Err(error) => text_entry(gguf@.metadata, key@) == Err::<
                Option<Seq<char>>,
                ModelFault,
            >(error@),
        },
{
    match find_value(gguf, key) {
        None => Ok(None),
        Some(MetadataValue::Scalar(ScalarValue::String(value))) => Ok(Some(text::owned(value))),
        Some(_) => Err(ModelError::InvalidUtf8Metadata(key)),
    }
}

/// Why dimensions before number `count` do not fit this machine.
pub open spec fn dimension_fault(shape: Seq<u64>, count: nat) -> Option<ModelFault>
    decreases count,
{
    if count == 0 {
        None
    } else {
        let before = dimension_fault(shape, (count - 1) as nat);
        if before is Some {
            before
        } else if shape[count - 1] > usize::MAX {
            Some(ModelFault::Shape(text::decimal(shape[count - 1] as nat) + " exceeds usize"@))
        } else {
            None
        }
    }
}

/// Why a tensor cannot be indexed.
pub open spec fn tensor_fault(tensor: Tensor, data_size: nat) -> Option<ModelFault> {
    let dimension = dimension_fault(tensor.shape, tensor.shape.len());
    if dimension is Some {
        dimension
    } else if tensor.shape.contains(0) {
        Some(ModelFault::Shape("tensor "@ + tensor.name + " has a zero dimension"@))
    } else if tensor.offset + tensor.byte_len > data_size {
        Some(ModelFault::Parse("tensor "@ + tensor.name + " range is outside the file"@))
    } else {
        None
    }
}

/// Why the first `count` tensors cannot be indexed.
pub open spec fn tensors_fault(document: Document, count: nat) -> Option<ModelFault>
    decreases count,
{
    if count == 0 {
        None
    } else {
        let before = tensors_fault(document, (count - 1) as nat);
        if before is Some {
            before
        } else {
            tensor_fault(document.tensors[count - 1], document.data_size)
        }
    }
}

/// The index entry of a tensor.
pub open spec fn indexed(tensor: Tensor, data_offset: nat) -> Descriptor {
    Descriptor {
        name: tensor.name,
        shape: tensor.shape.map_values(|dimension: u64| dimension as usize),
        value_type: tensor.value_type,
        byte_offset: data_offset + tensor.offset,
        byte_len: tensor.byte_len,
    }
}

/// The index of a document.
pub open spec fn index_of(
    document: Document,
    file: Seq<u8>,
    architecture: Option<Seq<char>>,
    name: Option<Seq<char>>,
    max_file_bytes: nat,
) -> Index {
    Index {
        file_size: file.len(),
        digest: digest::sha256_of(file)@,
        architecture,
        name,
        tensors: document.tensors.map_values(
            |tensor: Tensor| indexed(tensor, document.data_offset),
        ),
        max_file_bytes,
    }
}

/// The index of the model in a file.
pub open spec fn opened(file: Seq<u8>, max_file_bytes: nat) -> Result<Index, ModelFault> {
    match grammar::document(model_rules(), file) {
        Err(failure) => Err(ModelFault::Parse(gguf_error::failure_text(failure))),
        Ok(document) => match tensors_fault(document, document.tensors.len()) {
            Some(fault) => Err(fault),
            None => match text_entry(document.metadata, "general.architecture"@) {
                Err(fault) => Err(fault),
                Ok(architecture) => match text_entry(document.metadata, "general.name"@) {
                    Err(fault) => Err(fault),
                    Ok(name) => Ok(index_of(document, file, architecture, name, max_file_bytes)),
                },
            },
        },
    }
}

/// Converts the dimensions of a tensor.
fn convert_shape(dimensions: &[u64]) -> (result: Result<Vec<usize>, ModelError>)
    ensures
        match result {
            Ok(shape) => {
                &&& dimension_fault(dimensions@, dimensions@.len()) is None
                &&& shape@ == dimensions@.map_values(|dimension: u64| dimension as usize)
            },
            Err(error) => dimension_fault(dimensions@, dimensions@.len()) == Some(error@),
        },
{
    let mut shape: Vec<usize> = Vec::new();
    let mut i: usize = 0;
    while i < dimensions.len()
        invariant
            i <= dimensions@.len(),
            shape@.len() == i,
            dimension_fault(dimensions@, i as nat) is None,
            forall|k: int| 0 <= k < i ==> #[trigger] shape@[k] == dimensions@[k] as usize,
        decreases dimensions@.len() - i,
    {
        let dimension: u64 = dimensions[i];
        if dimension > usize::MAX as u64 {
            let error = error::counted_shape_error("", dimension, " exceeds usize");
            proof {
                reveal_strlit("");
                assert(""@ + text::decimal(dimension as nat) + " exceeds usize"@ =~= text::decimal(
                    dimension as nat,
                ) + " exceeds usize"@);
                lemma_dimension_fault(dimensions@, (i + 1) as nat, dimensions@.len());
            }
            return Err(error);
        }
        shape.push(dimension as usize);
        i += 1;
    }
    assert(shape@ =~= dimensions@.map_values(|dimension: u64| dimension as usize));
    Ok(shape)
}

/// The first fault among the dimensions stands.
proof fn lemma_dimension_fault(shape: Seq<u64>, at: nat, count: nat)
    requires
        at <= count,
        dimension_fault(shape, at) is Some,
    ensures
        dimension_fault(shape, count) == dimension_fault(shape, at),
    decreases count,
{
    if at < count {
        lemma_dimension_fault(shape, at, (count - 1) as nat);
    }
}

/// The first fault among the tensors stands.
proof fn lemma_tensors_fault(document: Document, at: nat, count: nat)
    requires
        at <= count,
        tensors_fault(document, at) is Some,
    ensures
        tensors_fault(document, count) == tensors_fault(document, at),
    decreases count,
{
    if at < count {
        lemma_tensors_fault(document, at, (count - 1) as nat);
    }
}

/// Tests whether one of the dimensions is zero.
fn has_zero(shape: &[u64]) -> (found: bool)
    ensures
        found == shape@.contains(0),
{
    let mut i: usize = 0;
    while i < shape.len()
        invariant
            i <= shape@.len(),
            forall|k: int| 0 <= k < i ==> shape@[k] != 0,
        decreases shape@.len() - i,
    {
        if shape[i] == 0 {
            return true;
        }
        i += 1;
    }
    false
}

/// A reason that names a tensor.
pub(crate) fn named(before: &str, name: &str, after: &str) -> (reason: String)
    ensures
        reason@ == before@ + name@ + after@,
{
    let mut reason = String::new();
    reason.append(before);
    reason.append(name);
    reason.append(after);
    assert(reason@ =~= before@ + name@ + after@);
    reason
}

/// Makes the index entry of a tensor.
fn index_tensor(gguf: &Gguf<'_>, index: usize, tensor: &TensorInfo<'_>) -> (result: Result<
    TensorDescriptor,
    ModelError,
>)
    requires
        index < gguf@.tensors.len(),
        tensor.well_formed(),
        tensor@ == gguf@.tensors[index as int],
    ensures
        match result {
            Ok(descriptor) => {
                &&& tensor_fault(tensor@, gguf@.data_size) is None
                &&& descriptor@ == indexed(tensor@, gguf@.data_offset)
            },
            Err(error) => tensor_fault(tensor@, gguf@.data_size) == Some(error@),
        },
{
    let shape: Vec<usize> = convert_shape(tensor.shape())?;
    if has_zero(tensor.shape()) {
        return Err(ModelError::Shape(named("tensor ", tensor.name, " has a zero dimension")));
    }
    match gguf.tensor_data_range(index) {
        None => Err(ModelError::Parse(named("tensor ", tensor.name, " range is outside the file"))),
        Some(range) => Ok(
            TensorDescriptor::new(
                tensor.name,
                shape,
                tensor.value_type,
                range.start as u64,
                (range.end - range.start) as u64,
            ),
        ),
    }
}

/// Makes the index entries of all tensors.
fn index_tensors(gguf: &Gguf<'_>) -> (result: Result<Vec<TensorDescriptor>, ModelError>)
    ensures
        match result {
            Ok(tensors) => {
                &&& tensors_fault(gguf@, gguf@.tensors.len()) is None
                &&& tensors@.map_values(|tensor: TensorDescriptor| tensor@)
                    == gguf@.tensors.map_values(|tensor: Tensor| indexed(tensor, gguf@.data_offset))
            },
            Err(error) => tensors_fault(gguf@, gguf@.tensors.len()) == Some(error@),
        },
{
    let rows = gguf.tensors();
    let mut tensors: Vec<TensorDescriptor> = Vec::new();
    let mut i: usize = 0;
    while i < rows.len()
        invariant
            i <= rows@.len(),
            rows@.map_values(|tensor: TensorInfo| tensor@) == gguf@.tensors,
            rows@.len() == gguf@.tensors.len(),
            forall|k: int| 0 <= k < rows@.len() ==> (#[trigger] rows@[k]).well_formed(),
            tensors_fault(gguf@, i as nat) is None,
            tensors@.len() == i,
            forall|k: int|
                0 <= k < i ==> (#[trigger] tensors@[k])@ == indexed(
                    gguf@.tensors[k],
                    gguf@.data_offset,
                ),
        decreases rows@.len() - i,
    {
        assert(gguf@.tensors[i as int] == rows@[i as int]@);
        assert(rows@[i as int].well_formed());
        match index_tensor(gguf, i, &rows[i]) {
            Ok(descriptor) => {
                tensors.push(descriptor);
            },
            Err(error) => {
                proof {
                    assert(tensors_fault(gguf@, (i + 1) as nat) == Some(error@));
                    lemma_tensors_fault(gguf@, (i + 1) as nat, gguf@.tensors.len());
                }
                return Err(error);
            },
        }
        i += 1;
    }
    assert(tensors@.map_values(|tensor: TensorDescriptor| tensor@) =~= gguf@.tensors.map_values(
        |tensor: Tensor| indexed(tensor, gguf@.data_offset),
    ));
    Ok(tensors)
}

/// Parses the bytes of a model.
fn parse<'a>(bytes: &'a [u8]) -> (result: Result<Gguf<'a>, ModelError>)
    ensures
        match grammar::document(model_rules(), bytes@) {
            Ok(document) => result matches Ok(gguf) && gguf@ == document && gguf.spec_source()
                == bytes@,
            Err(failure) => result matches Err(error) && error@ == ModelFault::Parse(
                gguf_error::failure_text(failure),
            ),
        },
{
    match Gguf::from_bytes(bytes) {
        Ok(gguf) => Ok(gguf),
        Err(error) => Err(ModelError::Parse(error.message())),
    }
}

/// Tests whether bytes have a given digest.
fn has_digest(bytes: &[u8], expected: &[u8; 32]) -> (same: bool)
    ensures
        same == (digest::sha256_of(bytes@)@ == expected@),
{
    let actual = digest::sha256(bytes);
    let mut i: usize = 0;
    while i < 32
        invariant
            i <= 32,
            actual == digest::sha256_of(bytes@),
            forall|k: int| 0 <= k < i ==> actual@[k] == expected@[k],
        decreases 32 - i,
    {
        if actual[i] != expected[i] {
            assert(actual@[i as int] != expected@[i as int]);
            return false;
        }
        i += 1;
    }
    assert(actual@ =~= expected@);
    true
}

/// Why a file is no longer the one that was indexed.
pub open spec fn changed_fault(index: Index, source: ModelSource) -> Option<ModelFault> {
    if source_fault(source) is Some {
        source_fault(source)
    } else if digest::sha256_of(source.spec_bytes())@ != index.digest {
        Some(ModelFault::ContentChanged)
    } else {
        None
    }
}

/// The tensor with a given name, looked for from tensor number `from` on.
pub open spec fn tensor_from(tensors: Seq<Descriptor>, name: Seq<char>, from: int) -> Option<
    Descriptor,
>
    decreases tensors.len() - from,
{
    if from < 0 || from >= tensors.len() {
        None
    } else if tensors[from].name == name {
        Some(tensors[from])
    } else {
        tensor_from(tensors, name, from + 1)
    }
}

/// The tensor with a given name.
pub open spec fn tensor_named(index: Index, name: Seq<char>) -> Option<Descriptor> {
    tensor_from(index.tensors, name, 0)
}

impl GgufModel {
    /// The path that the model was opened with.
    pub closed spec fn spec_path(&self) -> std::path::PathBuf {
        self.path
    }

    /// Validates and indexes one complete GGUF model.
    ///
    /// `source` is what came of mapping the file that the canonical `path`
    /// leads to. The digest of its bytes is checked again before each tensor
    /// materialization.
    pub fn open(
        path: std::path::PathBuf,
        max_file_bytes: u64,
        source: ModelSource<'_>,
    ) -> (result: Result<Self, ModelError>)
        ensures
            if max_file_bytes == 0 {
                result matches Err(error) && error@ == ModelFault::InvalidLimit
            } else if source_fault(source) is Some {
                result matches Err(error) && Some(error@) == source_fault(source)
            } else {
                match opened(source.spec_bytes(), max_file_bytes as nat) {
                    Ok(index) => result matches Ok(model) && model@ == index && model.spec_path()
                        == path,
                    Err(fault) => result matches Err(error) && error@ == fault,
                }
            },
    {
        if max_file_bytes == 0 {
            return Err(ModelError::InvalidLimit);
        }
        let bytes = source.bytes()?;
        let digest = digest::sha256(bytes);
        let gguf = parse(bytes)?;
        let tensors = index_tensors(&gguf)?;
        let architecture = metadata_string(&gguf, "general.architecture")?;
        let name = metadata_string(&gguf, "general.name")?;
        Ok(
            GgufModel {
                path,
                file_size: bytes.len() as u64,
                digest,
                architecture,
                name,
                tensors,
                max_file_bytes,
            },
        )
    }

    /// Returns the canonical model path.
    pub fn path(&self) -> (path: &std::path::PathBuf)
        ensures
            *path == self.spec_path(),
    {
        &self.path
    }

    /// Returns the validated model byte length.
    pub fn file_size(&self) -> (size: u64)
        ensures
            size == self@.file_size,
    {
        self.file_size
    }

    /// Returns the limit that the model was opened with.
    pub fn max_file_bytes(&self) -> (limit: u64)
        ensures
            limit == self@.max_file_bytes,
    {
        self.max_file_bytes
    }

    /// Returns the model SHA-256 digest as lowercase hexadecimal.
    pub fn digest_hex(&self) -> (text: String)
        ensures
            text@ == digest::hex_of(self@.digest),
    {
        let mut text = String::new();
        digest::push_hex(&mut text, &self.digest);
        assert(text@ =~= digest::hex_of(self@.digest));
        text
    }

    /// Returns the optional `general.architecture` metadata value.
    pub fn architecture(&self) -> (architecture: Option<&str>)
        ensures
            match architecture {
                Some(text) => self@.architecture == Some(text@),
                None => self@.architecture is None,
            },
    {
        match &self.architecture {
            Some(text) => Some(text.as_str()),
            None => None,
        }
    }

    /// Returns the optional `general.name` metadata value.
    pub fn name(&self) -> (name: Option<&str>)
        ensures
            match name {
                Some(text) => self@.name == Some(text@),
                None => self@.name is None,
            },
    {
        match &self.name {
            Some(text) => Some(text.as_str()),
            None => None,
        }
    }

    /// Returns all indexed tensor descriptors in GGUF order.
    pub fn tensors(&self) -> (tensors: &[TensorDescriptor])
        ensures
            tensors@.map_values(|tensor: TensorDescriptor| tensor@) == self@.tensors,
    {
        self.tensors.as_slice()
    }

    /// Finds one tensor descriptor by exact name.
    pub fn tensor(&self, name: &str) -> (tensor: Option<&TensorDescriptor>)
        ensures
            match tensor {
                Some(tensor) => tensor_named(self@, name@) == Some(tensor@),
                None => tensor_named(self@, name@) is None,
            },
    {
        let mut i: usize = 0;
        while i < self.tensors.len()
            invariant
                i <= self.tensors@.len(),
                self.tensors@.len() == self@.tensors.len(),
                forall|k: int|
                    0 <= k < self.tensors@.len() ==> #[trigger] self@.tensors[k]
                        == self.tensors@[k]@,
                tensor_named(self@, name@) == tensor_from(self@.tensors, name@, i as int),
            decreases self.tensors@.len() - i,
        {
            assert(self@.tensors[i as int] == self.tensors@[i as int]@);
            if text::same_text(self.tensors[i].name(), name) {
                return Some(&self.tensors[i]);
            }
            i += 1;
        }
        None
    }

    /// Checks that a file is still the one that was indexed.
    pub(crate) fn validated_bytes<'a>(&self, source: ModelSource<'a>) -> (result: Result<
        &'a [u8],
        ModelError,
    >)
        ensures
            match result {
                Ok(bytes) => {
                    &&& changed_fault(self@, source) is None
                    &&& bytes@ == source.spec_bytes()
                },
                Err(error) => changed_fault(self@, source) == Some(error@),
            },
    {
        let bytes = source.bytes()?;
        if !has_digest(bytes, &self.digest) {
            return Err(ModelError::ContentChanged);
        }
        Ok(bytes)
    }

    /// Checks that a file is still the one that was indexed, and parses it.
    pub(crate) fn validated_gguf<'a>(&self, source: ModelSource<'a>) -> (result: Result<
        Gguf<'a>,
        ModelError,
    >)
        ensures
            match result {
                Ok(gguf) => metadata_of(self@, source) == Ok::<Seq<Entry>, ModelFault>(
                    gguf@.metadata,
                ),
                Err(error) => metadata_of(self@, source) == Err::<Seq<Entry>, ModelFault>(error@),
            },
    {
        let bytes = self.validated_bytes(source)?;
        parse(bytes)
    }
}

/// The metadata of a file that is still the one that was indexed.
pub open spec fn metadata_of(index: Index, source: ModelSource) -> Result<Seq<Entry>, ModelFault> {
    match changed_fault(index, source) {
        Some(fault) => Err(fault),
        None => match grammar::document(model_rules(), source.spec_bytes()) {
            Ok(document) => Ok(document.metadata),
            Err(failure) => Err(ModelFault::Parse(gguf_error::failure_text(failure))),
        },
    }
}

} // verus!
