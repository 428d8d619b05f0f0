//! A GGUF file that is held in memory.

use std::ops::Range;

use vstd::prelude::*;

use crate::gguf::error::Error;
use crate::gguf::grammar;
use crate::gguf::grammar::{Document, Rules};
use crate::gguf::limits::Limits;
use crate::gguf::parser::{Parser, Request};
use crate::gguf::types::{Entry, MetadataEntry, MetadataValue, TensorInfo};
use crate::text;

verus! {

/// A parsed GGUF file. Its texts and arrays are borrowed from the source.
#[derive(Debug, PartialEq)]
pub struct Gguf<'a> {
    version: u32,
    alignment: u32,
    header_size: usize,
    data_offset: usize,
    data_size: usize,
    metadata: Vec<MetadataEntry<'a>>,
    tensors: Vec<TensorInfo<'a>>,
    source: &'a [u8],
}

impl<'a> View for Gguf<'a> {
    type V = Document;

    closed spec fn view(&self) -> Document {
        Document {
            version: self.version,
            alignment: self.alignment,
            header_size: self.header_size as nat,
            data_offset: self.data_offset as nat,
            data_size: self.data_size as nat,
            metadata: self.metadata@.map_values(|entry: MetadataEntry<'a>| entry@),
            tensors: self.tensors@.map_values(|tensor: TensorInfo<'a>| tensor@),
        }
    }
}

impl<'a> Clone for Gguf<'a> {
    fn clone(&self) -> (copy: Self)
        ensures
            copy@ == self@,
            copy.spec_source() == self.spec_source(),
    {
        proof {
            use_type_invariant(self);
        }
        let mut metadata: Vec<MetadataEntry<'a>> = Vec::new();
        let mut i: usize = 0;
        while i < self.metadata.len()
            invariant
                i <= self.metadata@.len(),
                metadata@.len() == i,
                forall|j: int| 0 <= j < i ==> (#[trigger] metadata@[j])@ == self.metadata@[j]@,
            decreases self.metadata@.len() - i,
        {
            metadata.push(self.metadata[i].clone());
            i += 1;
        }
        let mut tensors: Vec<TensorInfo<'a>> = Vec::new();
        let mut k: usize = 0;
        while k < self.tensors.len()
            invariant
                k <= self.tensors@.len(),
                tensors@ == self.tensors@.take(k as int),
            decreases self.tensors@.len() - k,
        {
            tensors.push(self.tensors[k].clone());
            k += 1;
        }
        assert(tensors@ =~= self.tensors@);
        let copy = Gguf {
            version: self.version,
            alignment: self.alignment,
            header_size: self.header_size,
            data_offset: self.data_offset,
            data_size: self.data_size,
            metadata,
            tensors,
            source: self.source,
        };
        assert(copy@.metadata =~= self@.metadata);
        copy
    }
}

impl<'a> Gguf<'a> {
    #[verifier::type_invariant]
    spec fn well_formed(self) -> bool {
        &&& self.data_offset + self.data_size <= self.source@.len()
        &&& forall|i: int|
            0 <= i < self.tensors@.len() ==> (#[trigger] self.tensors@[i]).well_formed()
    }

    /// The bytes of the whole file.
    pub closed spec fn spec_source(&self) -> Seq<u8> {
        self.source@
    }

    /// Parses a file with the default limits.
    pub fn from_bytes(source: &'a [u8]) -> (result: Result<Self, Error>)
        ensures
            match grammar::document(
                (Rules {
                    limits: Limits {
                        max_string_bytes: 1_073_741_824,
                        max_array_elements: 16_777_216,
                        max_metadata_entries: 1_048_576,
                        max_tensors: 1_048_576,
                    },
                    header_limit: None,
                }),
                source@,
            ) {
                Ok(document) => result matches Ok(file) && file@ == document && file.spec_source()
                    == source@,
                Err(failure) => result matches Err(error) && error@ == failure,
            },
    {
        Self::from_bytes_with_limits(source, Limits::default())
    }

    /// Parses a file with limits of the caller's choice.
    pub fn from_bytes_with_limits(source: &'a [u8], limits: Limits) -> (result: Result<
        Self,
        Error,
    >)
        ensures
            match grammar::document((Rules { limits, header_limit: None }), source@) {
                Ok(document) => result matches Ok(file) && file@ == document && file.spec_source()
                    == source@,
                Err(failure) => result matches Err(error) && error@ == failure,
            },
    {
        let mut parser = Parser::new(limits, None, source.len() as u64);
        loop
            invariant
                parser.well_formed(),
                parser.limits == limits,
                parser.header_limit is None,
                parser.file_size == source@.len(),
                parser.outcome(source@) == grammar::document(
                    (Rules { limits, header_limit: None }),
                    source@,
                ),
            decreases
                    source@.len() - parser.position,
                    (if parser.may_be_empty() {
                        1int
                    } else {
                        0int
                    }),
        {
            let request = match parser.request() {
                Ok(request) => request,
                Err(error) => {
                    return Err(error);
                },
            };
            match request {
                Request::Field(length) | Request::Flags(length) | Request::Skip(length) => {
                    let start: usize = parser.position;
                    let chunk = &source[start..start + length];
                    let ghost before = parser;
                    let result = parser.step(chunk, Some(chunk));
                    assert(before.matches(source@, chunk@));
                    if let Err(error) = result {
                        return Err(error);
                    }
                    assert(parser.outcome(source@) == before.outcome(source@));
                },
                Request::Finished => {
                    let file = Gguf {
                        version: parser.version,
                        alignment: parser.alignment,
                        header_size: parser.position,
                        data_offset: parser.data_offset,
                        data_size: parser.expected_offset as usize,
                        metadata: parser.metadata,
                        tensors: parser.tensors,
                        source,
                    };
                    assert(file@.metadata =~= parser.entries@);
                    assert(file@.tensors =~= parser.rows@);
                    return Ok(file);
                },
            }
        }
    }

    /// Returns the version of the format.
    pub fn version(&self) -> (version: u32)
        ensures
            version == self@.version,
    {
        self.version
    }

    /// Returns the alignment of tensor data.
    pub fn alignment(&self) -> (alignment: u32)
        ensures
            alignment == self@.alignment,
    {
        self.alignment
    }

    /// Returns the position of the tensor data.
    pub fn data_offset(&self) -> (offset: usize)
        ensures
            offset == self@.data_offset,
    {
        self.data_offset
    }

    /// Returns the tensor data, padding included.
    pub fn data(&self) -> (data: &'a [u8])
        ensures
            data@ == self.spec_source().subrange(
                self@.data_offset as int,
                (self@.data_offset + self@.data_size) as int,
            ),
    {
        proof {
            use_type_invariant(self);
        }
        assert(self.source.len() == self.source@.len());
        let source = self.source;
        &source[self.data_offset..self.data_offset + self.data_size]
    }

    /// Returns the number of bytes of tensor data, padding included.
    pub fn data_size(&self) -> (size: usize)
        ensures
            size == self@.data_size,
    {
        self.data_size
    }

    /// Returns the metadata in file order.
    pub fn metadata(&self) -> (metadata: &[MetadataEntry<'a>])
        ensures
            metadata@.map_values(|entry: MetadataEntry<'a>| entry@) == self@.metadata,
    {
        self.metadata.as_slice()
    }

    /// Returns the tensor table in file order.
    pub fn tensors(&self) -> (tensors: &[TensorInfo<'a>])
        ensures
            tensors@.map_values(|tensor: TensorInfo<'a>| tensor@) == self@.tensors,
            forall|i: int| 0 <= i < tensors@.len() ==> (#[trigger] tensors@[i]).well_formed(),
    {
        proof {
            use_type_invariant(self);
        }
        self.tensors.as_slice()
    }

    /// Returns the value with a given key.
    pub fn metadata_value(&self, key: &str) -> (value: Option<&MetadataValue<'a>>)
        ensures
            match value {
                Some(value) => exists|i: int|
                    0 <= i < self@.metadata.len() && #[trigger] self@.metadata[i] == (Entry {
                        key: key@,
                        value: value@,
                    }) && forall|j: int| 0 <= j < i ==> (#[trigger] self@.metadata[j]).key != key@,
                None => !grammar::has_key(self@.metadata, key@),
            },
    {
        let mut i: usize = 0;
        while i < self.metadata.len()
            invariant
                i <= self.metadata@.len(),
                self.metadata@.len() == self@.metadata.len(),
                forall|j: int|
                    0 <= j < self.metadata@.len() ==> #[trigger] self@.metadata[j]
                        == self.metadata@[j]@,
                forall|j: int| 0 <= j < i ==> (#[trigger] self@.metadata[j]).key != key@,
            decreases self.metadata@.len() - i,
        {
            if text::same_text(self.metadata[i].key, key) {
                assert(self@.metadata[i as int] == (Entry {
                    key: key@,
                    value: self.metadata@[i as int].value@,
                }));
                return Some(&self.metadata[i].value);
            }
            i += 1;
        }
        None
    }

    /// Returns the absolute file range of a tensor's data, without padding.
    pub fn tensor_data_range(&self, index: usize) -> (range: Option<Range<usize>>)
        ensures
            match range {
                Some(range) => {
                    &&& index < self@.tensors.len()
                    &&& range.start == self@.data_offset + self@.tensors[index as int].offset
                    &&& range.end == range.start + self@.tensors[index as int].byte_len
                    &&& range.end <= self@.data_offset + self@.data_size
                    &&& range.end <= self.spec_source().len()
                },
                None => index >= self@.tensors.len() || self@.tensors[index as int].offset
                    + self@.tensors[index as int].byte_len > self@.data_size,
            },
    {
        proof {
            use_type_invariant(self);
        }
        if index >= self.tensors.len() {
            return None;
        }
        let offset: u64 = self.tensors[index].offset;
        let byte_len: u64 = self.tensors[index].byte_len;
        assert(self@.tensors[index as int] == self.tensors@[index as int]@);
        assert(self.source.len() == self.source@.len());
        if offset > self.data_size as u64 || byte_len > self.data_size as u64 - offset {
            return None;
        }
        let start: usize = self.data_offset + offset as usize;
        Some(start..start + byte_len as usize)
    }

    /// Returns a tensor's encoded bytes, without padding.
    pub fn tensor_data(&self, index: usize) -> (data: Option<&'a [u8]>)
        ensures
            match data {
                Some(data) => {
                    let tensor = self@.tensors[index as int];
                    let start = self@.data_offset + tensor.offset;
                    &&& index < self@.tensors.len()
                    &&& tensor.offset + tensor.byte_len <= self@.data_size
                    &&& data@ == self.spec_source().subrange(
                        start as int,
                        (start + tensor.byte_len) as int,
                    )
                },
                None => index >= self@.tensors.len() || self@.tensors[index as int].offset
                    + self@.tensors[index as int].byte_len > self@.data_size,
            },
    {
        match self.tensor_data_range(index) {
            Some(range) => {
                let source = self.source;
                Some(&source[range.start..range.end])
            },
            None => None,
        }
    }
}

} // verus!
