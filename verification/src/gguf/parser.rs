//! A parser that is fed the file piece by piece.
//!
//! The parser never reads: it says which bytes it wants next and is handed
//! them. Whoever drives it holds the file, in memory or behind a reader.

use vstd::prelude::*;
use vstd::string::*;
use vstd::utf8;
use vstd::arithmetic::power2;
use vstd::hash_set::StringHashSet;

use crate::bytes;
use crate::gguf::error::{Error, ErrorKind, Failure, Fault};
use crate::gguf::grammar;
use crate::gguf::grammar::{
    Counts, Document, Located, Reading, Rules, DEFAULT_ALIGNMENT, MAX_METADATA_KEY_BYTES,
    MAX_TENSOR_NAME_BYTES, MIN_METADATA_ENTRY_BYTES, MIN_TENSOR_INFO_BYTES,
};
use crate::gguf::limits::Limits;
use crate::gguf::types;
use crate::gguf::types::{
    Entry, MetadataArray, MetadataEntry, MetadataType, MetadataValue, Scalar, ScalarValue, Tensor,
    TensorInfo, TensorType, Value,
};
use crate::text;

verus! {

/// Most boolean bytes that are asked for at once while streaming.
pub(crate) const FLAG_CHUNK_BYTES: usize = 8192;

/// What a parser wants next.
#[derive(Clone, Copy)]
pub(crate) enum Request {
    /// The bytes of a field.
    Field(usize),
    /// Some of the items of a boolean array.
    Flags(usize),
    /// To go on behind bytes that it does not look at.
    Skip(usize),
    /// Nothing: the file was read.
    Finished,
}

/// The field that the parser wants next.
#[derive(Clone, Copy)]
pub(crate) enum Stage {
    Magic,
    Version,
    TensorCount,
    EntryCount,
    KeyLength,
    KeyBytes(usize),
    ValueType,
    Scalar(MetadataType),
    TextBytes(usize),
    ItemType,
    ItemCount(MetadataType),
    ItemLength(usize),
    ItemBytes { count: usize, length: usize },
    FixedItems { element_type: MetadataType, count: usize, length: usize },
    Flags { remaining: usize, invalid: Option<u8> },
    NameLength,
    NameBytes(usize),
    DimensionCount,
    Dimension,
    TensorType,
    TensorOffset(TensorType),
    Finished,
}

/// The state of a parser between two fields.
pub(crate) struct Parser<'a> {
    pub(crate) limits: Limits,
    pub(crate) header_limit: Option<u64>,
    pub(crate) file_size: u64,
    pub(crate) position: usize,
    pub(crate) stage: Stage,
    pub(crate) version: u32,
    pub(crate) tensor_count: usize,
    pub(crate) entry_count: usize,
    // The entries read so far and the one under way.
    pub(crate) entries: Ghost<Seq<Entry>>,
    pub(crate) entries_done: usize,
    pub(crate) metadata: Vec<MetadataEntry<'a>>,
    pub(crate) keys: StringHashSet,
    pub(crate) alignment: u32,
    pub(crate) key: String,
    pub(crate) kept_key: Option<&'a str>,
    pub(crate) texts: Ghost<Seq<Seq<char>>>,
    pub(crate) texts_done: usize,
    pub(crate) kept_texts: Vec<&'a str>,
    // The rows read so far and the one under way.
    pub(crate) rows: Ghost<Seq<Tensor>>,
    pub(crate) rows_done: usize,
    pub(crate) tensors: Vec<TensorInfo<'a>>,
    pub(crate) names: StringHashSet,
    pub(crate) expected_offset: u64,
    pub(crate) name: String,
    pub(crate) kept_name: Option<&'a str>,
    pub(crate) dimensions: [u64; 4],
    pub(crate) dimension_count: u32,
    pub(crate) dimensions_done: usize,
    pub(crate) element_count: u64,
    pub(crate) data_offset: usize,
}

impl<'a> Parser<'a> {
    pub(crate) open spec fn rules(self) -> Rules {
        Rules { limits: self.limits, header_limit: self.header_limit }
    }

    pub(crate) open spec fn counts(self) -> Counts {
        Counts {
            version: self.version,
            tensors: self.tensor_count as nat,
            entries: self.entry_count as nat,
        }
    }

    pub(crate) open spec fn shape(self) -> Seq<u64> {
        self.dimensions@.take(self.dimensions_done as int)
    }

    /// What the file comes to once the entry under way was read as `entry`.
    pub(crate) open spec fn with_entry(
        self,
        file: Seq<u8>,
        entry: Reading<Entry>,
    ) -> Result<Document, Failure> {
        grammar::document_with_entries(
            self.rules(),
            file,
            self.counts(),
            grammar::entries_with(
                self.rules(),
                file,
                self.entry_count as nat,
                self.entries@,
                entry,
            ),
        )
    }

    /// What the file comes to once the value under way was read as `value`.
    pub(crate) open spec fn with_value(
        self,
        file: Seq<u8>,
        value: Reading<Value>,
    ) -> Result<Document, Failure> {
        self.with_entry(file, grammar::entry_with_value(self.key@, value))
    }

    /// What the file comes to once the row under way was read as `tensor`.
    pub(crate) open spec fn with_tensor(
        self,
        file: Seq<u8>,
        tensor: Reading<Tensor>,
    ) -> Result<Document, Failure> {
        grammar::document_with_tensors(
            file,
            self.counts(),
            self.entries@,
            grammar::tensors_with(
                self.rules(),
                file,
                self.alignment,
                self.tensor_count as nat,
                self.rows@,
                tensor,
            ),
        )
    }

    /// What the file comes to if the parser stands between two entries.
    pub(crate) open spec fn rest_of_metadata(self, file: Seq<u8>) -> Result<Document, Failure> {
        grammar::document_with_entries(
            self.rules(),
            file,
            self.counts(),
            grammar::entries_from(
                self.rules(),
                file,
                self.position as nat,
                self.entry_count as nat,
                self.entries@,
            ),
        )
    }

    /// What the file comes to if the parser stands between two rows.
    pub(crate) open spec fn rest_of_table(self, file: Seq<u8>) -> Result<Document, Failure> {
        grammar::document_with_tensors(
            file,
            self.counts(),
            self.entries@,
            grammar::tensors_from(
                self.rules(),
                file,
                self.position as nat,
                self.alignment,
                self.tensor_count as nat,
                self.rows@,
            ),
        )
    }

    /// The boolean array of which `remaining` bytes are still to be looked at.
    pub(crate) open spec fn flags_at(
        self,
        file: Seq<u8>,
        remaining: nat,
        invalid: Option<u8>,
    ) -> Reading<Value> {
        match grammar::bytes_at(self.rules(), file, self.position as nat, remaining) {
            Err(failure) => Err(failure),
            Ok(bytes) => match (match invalid {
                Some(byte) => Some(byte),
                None => grammar::invalid_flag(bytes.value),
            }) {
                Some(byte) => grammar::fail(bytes.end, Fault::InvalidBoolean(byte)),
                None => Ok(
                    Located {
                        value: Value::Array { element_type: MetadataType::Bool, items: seq![] },
                        end: bytes.end,
                    },
                ),
            },
        }
    }

    /// The contents of a file that was read to its end.
    pub(crate) open spec fn document(self) -> Document {
        Document {
            version: self.version,
            alignment: self.alignment,
            header_size: self.position as nat,
            data_offset: self.data_offset as nat,
            data_size: self.expected_offset as nat,
            metadata: self.entries@,
            tensors: self.rows@,
        }
    }

    /// What the file comes to, given what was read of it.
    pub(crate) open spec fn outcome(self, file: Seq<u8>) -> Result<Document, Failure> {
        let rules = self.rules();
        let position = self.position as nat;
        match self.stage {
            Stage::Magic => grammar::document(rules, file),
            Stage::Version => grammar::document_version_at(rules, file, position),
            Stage::TensorCount => grammar::document_tensors_at(
                rules,
                file,
                position,
                self.version,
            ),
            Stage::EntryCount => grammar::document_entries_at(
                rules,
                file,
                position,
                self.version,
                self.tensor_count as nat,
            ),
            Stage::KeyLength => self.with_entry(
                file,
                grammar::entry_with_key(
                    rules,
                    file,
                    self.entries@,
                    grammar::text_at(rules, file, position, "metadata key"@),
                ),
            ),
            Stage::KeyBytes(length) => self.with_entry(
                file,
                grammar::entry_with_key(
                    rules,
                    file,
                    self.entries@,
                    grammar::characters_at(
                        rules,
                        file,
                        position,
                        length as nat,
                        "metadata key"@,
                    ),
                ),
            ),
            Stage::ValueType => self.with_value(file, grammar::value_at(rules, file, position)),
            Stage::Scalar(value_type) => self.with_value(
                file,
                grammar::scalar_at(rules, file, position, value_type),
            ),
            Stage::TextBytes(length) => self.with_value(
                file,
                grammar::text_value(
                    grammar::characters_at(
                        rules,
                        file,
                        position,
                        length as nat,
                        "metadata string"@,
                    ),
                ),
            ),
            Stage::ItemType => self.with_value(file, grammar::array_at(rules, file, position)),
            Stage::ItemCount(element_type) => self.with_value(
                file,
                grammar::array_length_at(rules, file, position, element_type),
            ),
            Stage::ItemLength(count) => self.with_value(
                file,
                grammar::texts_with(
                    rules,
                    file,
                    count as nat,
                    self.texts@,
                    grammar::text_at(rules, file, position, "metadata array string"@),
                ),
            ),
            Stage::ItemBytes { count, length } => self.with_value(
                file,
                grammar::texts_with(
                    rules,
                    file,
                    count as nat,
                    self.texts@,
                    grammar::characters_at(
                        rules,
                        file,
                        position,
                        length as nat,
                        "metadata array string"@,
                    ),
                ),
            ),
            Stage::FixedItems { element_type, count, .. } => self.with_value(
                file,
                grammar::fixed_array_at(rules, file, position, element_type, count as nat),
            ),
            Stage::Flags { remaining, invalid } => self.with_value(
                file,
                self.flags_at(file, remaining as nat, invalid),
            ),
            Stage::NameLength => self.with_tensor(
                file,
                grammar::tensor_with_name(
                    rules,
                    file,
                    self.alignment,
                    self.rows@,
                    grammar::text_at(rules, file, position, "tensor name"@),
                ),
            ),
            Stage::NameBytes(length) => self.with_tensor(
                file,
                grammar::tensor_with_name(
                    rules,
                    file,
                    self.alignment,
                    self.rows@,
                    grammar::characters_at(
                        rules,
                        file,
                        position,
                        length as nat,
                        "tensor name"@,
                    ),
                ),
            ),
            Stage::DimensionCount => self.with_tensor(
                file,
                grammar::tensor_shape_at(
                    rules,
                    file,
                    position,
                    self.alignment,
                    self.rows@,
                    self.name@,
                ),
            ),
            Stage::Dimension | Stage::TensorType => self.with_tensor(
                file,
                grammar::tensor_with_shape(
                    rules,
                    file,
                    self.alignment,
                    self.rows@,
                    self.name@,
                    grammar::shape_from(
                        rules,
                        file,
                        position,
                        self.dimension_count as nat,
                        self.shape(),
                    ),
                ),
            ),
            Stage::TensorOffset(value_type) => self.with_tensor(
                file,
                grammar::tensor_with_type(
                    rules,
                    file,
                    position,
                    self.alignment,
                    self.rows@,
                    self.name@,
                    self.shape(),
                    value_type.code(),
                ),
            ),
            Stage::Finished => Ok(self.document()),
        }
    }

    /// Whether values are kept for a caller that holds the whole file.
    pub(crate) open spec fn keeps(self) -> bool {
        self.header_limit is None
    }

    pub(crate) open spec fn in_bounds(self) -> bool {
        &&& self.position <= self.file_size
        &&& self.header_limit is None ==> self.file_size <= usize::MAX
        &&& self.header_limit matches Some(limit) ==> self.position <= limit
    }

    pub(crate) open spec fn entries_agree(self) -> bool {
        &&& self.entries_done == self.entries@.len()
        &&& self.alignment == grammar::alignment_of(self.entries@)
        &&& forall|key: Seq<char>| #[trigger]
            self.keys@.contains(key) <==> grammar::has_key(self.entries@, key)
        &&& self.keeps() ==> {
            &&& self.metadata@.len() == self.entries@.len()
            &&& forall|i: int|
                0 <= i < self.entries@.len() ==> (#[trigger] self.metadata@[i])@
                    == self.entries@[i]
        }
    }

    pub(crate) open spec fn rows_agree(self) -> bool {
        &&& self.rows_done == self.rows@.len()
        &&& self.expected_offset == grammar::data_size_of(self.rows@, self.alignment)
        &&& forall|name: Seq<char>| #[trigger]
            self.names@.contains(name) <==> grammar::has_name(self.rows@, name)
        &&& self.keeps() ==> {
            &&& self.tensors@.len() == self.rows@.len()
            &&& forall|i: int|
                0 <= i < self.rows@.len() ==> {
                    &&& (#[trigger] self.tensors@[i]).well_formed()
                    &&& self.tensors@[i]@ == self.rows@[i]
                }
        }
    }

    /// No entry and no row was read.
    pub(crate) open spec fn fresh(self) -> bool {
        &&& self.in_bounds()
        &&& self.entries@ == Seq::<Entry>::empty()
        &&& self.rows@ == Seq::<Tensor>::empty()
        &&& self.entries_agree()
        &&& self.rows_agree()
    }

    /// The metadata is being read.
    pub(crate) open spec fn in_metadata(self) -> bool {
        &&& self.in_bounds()
        &&& self.entries@.len() <= self.entry_count
        &&& self.rows@ == Seq::<Tensor>::empty()
        &&& self.entries_agree()
        &&& self.rows_agree()
    }

    /// A metadata value is being read.
    pub(crate) open spec fn in_value(self) -> bool {
        &&& self.in_metadata()
        &&& self.entries@.len() < self.entry_count
        &&& grammar::key_fault(self.entries@, self.key@) is None
        &&& self.keeps() ==> (self.kept_key matches Some(key) && key@ == self.key@)
    }

    /// The tensor table is being read.
    pub(crate) open spec fn in_table(self) -> bool {
        &&& self.in_bounds()
        &&& self.rows@.len() <= self.tensor_count
        &&& power2::is_pow2(self.alignment as int)
        &&& self.entries_agree()
        &&& self.rows_agree()
    }

    /// A row of the tensor table is being read.
    pub(crate) open spec fn in_row(self) -> bool {
        &&& self.in_table()
        &&& self.rows@.len() < self.tensor_count
        &&& grammar::name_fault(self.rows@, self.name@) is None
        &&& self.keeps() ==> (self.kept_name matches Some(name) && name@ == self.name@)
    }

    pub(crate) open spec fn in_texts(self, count: usize) -> bool {
        &&& self.in_value()
        &&& self.texts_done == self.texts@.len()
        &&& self.texts@.len() < count
        &&& self.keeps() ==> {
            &&& self.kept_texts@.len() == self.texts@.len()
            &&& forall|i: int|
                0 <= i < self.texts@.len() ==> (#[trigger] self.kept_texts@[i])@ == self.texts@[i]
        }
    }

    pub(crate) open spec fn shape_agrees(self) -> bool {
        &&& self.dimensions_done <= self.dimension_count <= 4
        &&& self.element_count == grammar::element_count(self.shape())
        &&& self.element_count <= i64::MAX
        &&& forall|i: int| self.dimensions_done <= i < 4 ==> #[trigger] self.dimensions@[i] == 1
    }

    pub(crate) open spec fn well_formed(self) -> bool {
        match self.stage {
            Stage::Magic => self.fresh() && self.position == 0,
            Stage::Version | Stage::TensorCount | Stage::EntryCount => self.fresh(),
            Stage::KeyLength | Stage::KeyBytes(_) => self.in_metadata() && self.entries@.len()
                < self.entry_count,
            Stage::ValueType | Stage::TextBytes(_) | Stage::ItemType => self.in_value(),
            Stage::Scalar(value_type) => self.in_value() && value_type != MetadataType::Array,
            Stage::ItemCount(element_type) => self.in_value() && element_type
                != MetadataType::Array,
            Stage::ItemLength(count) => self.in_texts(count),
            Stage::ItemBytes { count, .. } => self.in_texts(count),
            Stage::FixedItems { element_type, count, length } => {
                &&& self.in_value()
                &&& types::fixed_width_of(element_type) is Some
                &&& length == count * types::fixed_width_of(element_type)->0
                &&& !self.keeps() ==> element_type != MetadataType::Bool
            },
            Stage::Flags { .. } => self.in_value() && !self.keeps(),
            Stage::NameLength | Stage::NameBytes(_) => self.in_table() && self.rows@.len()
                < self.tensor_count,
            Stage::DimensionCount => self.in_row(),
            Stage::Dimension => self.in_row() && self.shape_agrees() && self.dimensions_done
                < self.dimension_count,
            Stage::TensorType => self.in_row() && self.shape_agrees() && self.dimensions_done
                == self.dimension_count,
            Stage::TensorOffset(value_type) => {
                &&& self.in_row()
                &&& self.shape_agrees()
                &&& self.dimensions_done == self.dimension_count
                &&& grammar::storage_fault(self.shape(), value_type.code()) is None
            },
            Stage::Finished => {
                &&& self.in_table()
                &&& self.data_offset + self.expected_offset <= self.file_size
                &&& self.position <= self.data_offset
            },
        }
    }

    /// The number of bytes that the field under way occupies.
    pub(crate) open spec fn field_bytes(self) -> nat {
        match self.stage {
            Stage::Magic | Stage::Version | Stage::ValueType | Stage::ItemType
            | Stage::DimensionCount | Stage::TensorType => 4,
            Stage::TensorCount | Stage::EntryCount | Stage::KeyLength | Stage::ItemCount(_)
            | Stage::ItemLength(_) | Stage::NameLength | Stage::Dimension
            | Stage::TensorOffset(_) => 8,
            Stage::Scalar(value_type) => match types::fixed_width_of(value_type) {
                Some(width) => width,
                None => 8,
            },
            Stage::KeyBytes(length) => length as nat,
            Stage::TextBytes(length) => length as nat,
            Stage::ItemBytes { length, .. } => length as nat,
            Stage::NameBytes(length) => length as nat,
            Stage::FixedItems { length, .. } => length as nat,
            Stage::Flags { remaining, .. } => remaining as nat,
            Stage::Finished => 0,
        }
    }

    /// Whether the field under way may occupy no byte at all.
    pub(crate) open spec fn may_be_empty(self) -> bool {
        match self.stage {
            Stage::KeyBytes(_) | Stage::TextBytes(_) | Stage::ItemBytes { .. }
            | Stage::NameBytes(_) | Stage::FixedItems { .. } | Stage::Flags { .. } => true,
            _ => false,
        }
    }

    /// The next `length` bytes may be read.
    pub(crate) open spec fn reaches(self, length: nat) -> bool {
        grammar::reach_fault(
            self.rules(),
            self.file_size as nat,
            self.position as nat,
            length,
        ) is None
    }

    pub(crate) open spec fn same_source(self, other: Self) -> bool {
        &&& self.limits == other.limits
        &&& self.header_limit == other.header_limit
        &&& self.file_size == other.file_size
    }

    /// `chunk` stands in `file` where the parser goes on.
    pub(crate) open spec fn matches(self, file: Seq<u8>, chunk: Seq<u8>) -> bool {
        &&& file.len() == self.file_size
        &&& self.position + chunk.len() <= file.len()
        &&& file.subrange(self.position as int, self.position + chunk.len()) == chunk
    }

    /// `next` and `result` are what comes of this state and `chunk`, whatever
    /// the rest of the file holds.
    pub(crate) open spec fn continues(
        self,
        next: Self,
        result: Result<(), Error>,
        chunk: Seq<u8>,
    ) -> bool {
        match result {
            Ok(()) => {
                &&& next.well_formed()
                &&& next.same_source(self)
                &&& next.position == self.position + chunk.len()
                &&& next.position > self.position || (self.may_be_empty() && !next.may_be_empty())
                &&& forall|file: Seq<u8>|
                    self.matches(file, chunk) ==> self.outcome(file) == #[trigger] next.outcome(
                        file,
                    )
            },
            Err(error) => forall|file: Seq<u8>| #[trigger]
                self.matches(file, chunk) ==> self.outcome(file) == Err::<Document, Failure>(
                    error@,
                ),
        }
    }

    fn error(&self, kind: ErrorKind) -> (error: Error)
        ensures
            error@ == (Failure { offset: self.position as nat, fault: kind@ }),
    {
        Error::new(self.position, kind)
    }

    /// Tests whether the next `length` bytes may be read.
    fn reach(&self, length: usize) -> (kind: Option<ErrorKind>)
        requires
            self.in_bounds(),
        ensures
            match grammar::reach_fault(
                self.rules(),
                self.file_size as nat,
                self.position as nat,
                length as nat,
            ) {
                Some(fault) => kind matches Some(kind) && kind@ == fault,
                None => kind is None,
            },
    {
        let left: u64 = self.file_size - self.position as u64;
        let remaining: usize = if left > usize::MAX as u64 {
            usize::MAX
        } else {
            left as usize
        };
        match self.header_limit {
            Some(limit) => {
                let end: usize = match self.position.checked_add(length) {
                    Some(end) => end,
                    None => {
                        return Some(ErrorKind::IntegerOverflow("reader position"));
                    },
                };
                if end as u64 > limit {
                    return Some(
                        ErrorKind::LimitExceeded {
                            field: "header bytes",
                            value: end as u64,
                            limit,
                        },
                    );
                }
                if end as u64 > self.file_size {
                    return Some(ErrorKind::UnexpectedEof { needed: length, remaining });
                }
                None
            },
            None => {
                if length > remaining {
                    return Some(ErrorKind::UnexpectedEof { needed: length, remaining });
                }
                None
            },
        }
    }

    /// Tests whether a table of `count` items may follow.
    fn reach_table(&self, count: usize, width: usize, field: &'static str) -> (kind: Option<
        ErrorKind,
    >)
        requires
            self.in_bounds(),
        ensures
            match grammar::table_fault(
                self.rules(),
                self.file_size as nat,
                self.position as nat,
                count as nat,
                width as nat,
                field@,
            ) {
                Some(fault) => kind matches Some(kind) && kind@ == fault,
                None => kind is None,
            },
    {
        match count.checked_mul(width) {
            Some(length) => self.reach(length),
            None => Some(ErrorKind::IntegerOverflow(field)),
        }
    }

    /// Goes on behind a row, or behind the last one.
    fn next_row(&mut self) -> (result: Result<(), Error>)
        requires
            old(self).in_table(),
        ensures
            match result {
                Ok(()) => {
                    &&& final(self).well_formed()
                    &&& final(self).same_source(*old(self))
                    &&& final(self).position == old(self).position
                    &&& !final(self).may_be_empty()
                    &&& forall|file: Seq<u8>|
                        file.len() == old(self).file_size ==> #[trigger] final(self).outcome(file)
                            == old(self).rest_of_table(file)
                },
                Err(error) => forall|file: Seq<u8>|
                    file.len() == old(self).file_size ==> #[trigger] old(self).rest_of_table(file)
                        == Err::<Document, Failure>(error@),
            },
    {
        proof {
            reveal(grammar::document_with_tensors);
        }
        if self.rows_done < self.tensor_count {
            self.stage = Stage::NameLength;
            return Ok(());
        }
        let alignment: u64 = self.alignment as u64;
        proof {
            lemma_pow2_positive(self.alignment);
        }
        let data_offset: usize = if self.tensor_count == 0 {
            self.position
        } else {
            match align_up(self.position as u64, alignment, usize::MAX as u64) {
                Some(value) => value as usize,
                None => {
                    return Err(self.error(ErrorKind::IntegerOverflow("data offset")));
                },
            }
        };
        if data_offset as u64 > self.file_size {
            let needed: usize = (data_offset as u64 - self.file_size) as usize;
            return Err(self.error(ErrorKind::UnexpectedEof { needed, remaining: 0 }));
        }
        let available: u64 = self.file_size - data_offset as u64;
        if available < self.expected_offset {
            return Err(
                self.error(
                    ErrorKind::TensorDataTruncated {
                        expected: self.expected_offset,
                        actual: available,
                    },
                ),
            );
        }
        self.data_offset = data_offset;
        self.stage = Stage::Finished;
        Ok(())
    }

    /// Goes on behind an entry, or behind the last one.
    fn next_entry(&mut self) -> (result: Result<(), Error>)
        requires
            old(self).in_metadata(),
        ensures
            match result {
                Ok(()) => {
                    &&& final(self).well_formed()
                    &&& final(self).same_source(*old(self))
                    &&& final(self).position == old(self).position
                    &&& !final(self).may_be_empty()
                    &&& forall|file: Seq<u8>|
                        file.len() == old(self).file_size ==> #[trigger] final(self).outcome(file)
                            == old(self).rest_of_metadata(file)
                },
                Err(error) => forall|file: Seq<u8>|
                    file.len() == old(self).file_size ==> #[trigger] old(self).rest_of_metadata(
                        file,
                    ) == Err::<Document, Failure>(error@),
            },
    {
        proof {
            reveal(grammar::document_with_entries);
            reveal(grammar::entry_with_key);
            reveal(grammar::text_at);
        }
        if self.entries_done < self.entry_count {
            self.stage = Stage::KeyLength;
            return Ok(());
        }
        if !is_power_of_two(self.alignment) {
            return Err(self.error(ErrorKind::InvalidAlignment(self.alignment)));
        }
        if let Some(kind) = self.reach_table(
            self.tensor_count,
            MIN_TENSOR_INFO_BYTES,
            "tensor table",
        ) {
            return Err(self.error(kind));
        }
        let ghost before = *self;
        assert(forall|file: Seq<u8>|
            file.len() == before.file_size ==> #[trigger] before.rest_of_metadata(file)
                == before.rest_of_table(file));
        self.next_row()
    }

    /// Goes on behind a metadata value.
    ///
    /// `model` is the value, `value_type` its type and `alignment` the value
    /// if it could be an alignment. The value itself is there if values are
    /// kept.
    fn finish_value(
        &mut self,
        value: Option<MetadataValue<'a>>,
        value_type: MetadataType,
        alignment: Option<u32>,
        Ghost(model): Ghost<Value>,
    ) -> (result: Result<(), Error>)
        requires
            old(self).in_value(),
            old(self).keeps() ==> (value matches Some(value) && value@ == model),
            value_type == types::value_type_of(model),
            match alignment {
                Some(alignment) => model == Value::Scalar(Scalar::U32(alignment)),
                None => !(model matches Value::Scalar(Scalar::U32(_))),
            },
        ensures
            match result {
                Ok(()) => {
                    &&& final(self).well_formed()
                    &&& final(self).same_source(*old(self))
                    &&& final(self).position == old(self).position
                    &&& !final(self).may_be_empty()
                    &&& forall|file: Seq<u8>|
                        file.len() == old(self).file_size ==> #[trigger] final(self).outcome(file)
                            == old(self).with_value(
                            file,
                            Ok(Located { value: model, end: old(self).position as nat }),
                        )
                },
                Err(error) => forall|file: Seq<u8>|
                    file.len() == old(self).file_size ==> #[trigger] old(self).with_value(
                        file,
                        Ok(Located { value: model, end: old(self).position as nat }),
                    ) == Err::<Document, Failure>(error@),
            },
    {
        proof {
            reveal(grammar::entry_with_value);
            reveal(grammar::document_with_entries);
        }
        let ghost start = *self;
        let ghost entry = Entry { key: self.key@, value: model };
        let mut stated: u32 = self.alignment;
        if text::same_text(self.key.as_str(), "general.alignment") {
            match alignment {
                Some(alignment) => {
                    stated = alignment;
                },
                None => {
                    return Err(self.error(ErrorKind::InvalidMetadataType(value_type.code())));
                },
            }
        }
        let mut key = String::new();
        std::mem::swap(&mut key, &mut self.key);
        self.alignment = stated;
        self.keys.insert(key);
        if let Some(value) = value {
            if let Some(key) = self.kept_key {
                self.metadata.push(MetadataEntry { key, value });
            }
        }
        self.entries_done = self.entries_done + 1;
        self.entries = Ghost(self.entries@.push(entry));
        let ghost before = *self;
        proof {
            grammar::lemma_alignment_push(start.entries@, entry);
            assert forall|key: Seq<char>| #[trigger]
                before.keys@.contains(key) <==> grammar::has_key(before.entries@, key) by {
                grammar::lemma_has_key_push(start.entries@, entry, key);
            }
            assert(forall|file: Seq<u8>|
                file.len() == start.file_size ==> #[trigger] start.with_value(
                    file,
                    Ok(Located { value: model, end: start.position as nat }),
                ) == before.rest_of_metadata(file));
        }
        self.next_entry()
    }

    /// What the file comes to once the key under way was read as `key`.
    pub(crate) open spec fn with_key(self, file: Seq<u8>, key: Seq<char>) -> Result<
        Document,
        Failure,
    > {
        self.with_entry(
            file,
            grammar::entry_with_key(
                self.rules(),
                file,
                self.entries@,
                Ok(Located { value: key, end: self.position as nat }),
            ),
        )
    }

    /// Tests whether a key may follow the keys read so far.
    fn check_key(&self, key: &str) -> (kind: Option<ErrorKind>)
        requires
            self.entries_agree(),
        ensures
            match grammar::key_fault(self.entries@, key@) {
                Some(fault) => kind matches Some(kind) && kind@ == fault,
                None => kind is None,
            },
    {
        proof {
            reveal(grammar::key_fault);
        }
        let length: usize = key.as_bytes().len();
        if length == 0 {
            return Some(ErrorKind::EmptyMetadataKey);
        }
        if length > MAX_METADATA_KEY_BYTES {
            return Some(ErrorKind::MetadataKeyTooLong(length));
        }
        if !is_valid_metadata_key(key) {
            return Some(ErrorKind::InvalidMetadataKey);
        }
        if self.keys.contains(key) {
            return Some(ErrorKind::DuplicateMetadataKey(text::owned(key)));
        }
        None
    }

    /// Goes on behind a metadata key.
    fn finish_key(&mut self, key: &str, kept: Option<&'a str>) -> (result: Result<(), Error>)
        requires
            old(self).in_metadata(),
            old(self).entries@.len() < old(self).entry_count,
            old(self).keeps() ==> (kept matches Some(kept) && kept@ == key@),
        ensures
            match result {
                Ok(()) => {
                    &&& final(self).well_formed()
                    &&& final(self).same_source(*old(self))
                    &&& final(self).position == old(self).position
                    &&& !final(self).may_be_empty()
                    &&& forall|file: Seq<u8>|
                        file.len() == old(self).file_size ==> #[trigger] final(self).outcome(file)
                            == old(self).with_key(file, key@)
                },
                Err(error) => forall|file: Seq<u8>|
                    file.len() == old(self).file_size ==> #[trigger] old(self).with_key(file, key@)
                        == Err::<Document, Failure>(error@),
            },
    {
        proof {
            reveal(grammar::entry_with_key);
            reveal(grammar::document_with_entries);
        }
        if let Some(kind) = self.check_key(key) {
            return Err(self.error(kind));
        }
        self.key = text::owned(key);
        self.kept_key = kept;
        self.stage = Stage::ValueType;
        Ok(())
    }

    /// What the file comes to if the parser stands between two texts of an
    /// array of `count` texts.
    pub(crate) open spec fn rest_of_texts(self, file: Seq<u8>, count: nat) -> Result<
        Document,
        Failure,
    > {
        self.with_value(
            file,
            grammar::texts_from(
                self.rules(),
                file,
                self.position as nat,
                count,
                self.texts@,
            ),
        )
    }

    /// Goes on behind a text of an array of `count` texts, or behind the last
    /// one.
    fn next_text(&mut self, count: usize) -> (result: Result<(), Error>)
        requires
            old(self).in_value(),
            old(self).texts_done == old(self).texts@.len(),
            old(self).texts@.len() <= count,
            old(self).keeps() ==> {
                &&& old(self).kept_texts@.len() == old(self).texts@.len()
                &&& forall|i: int|
                    0 <= i < old(self).texts@.len() ==> (#[trigger] old(self).kept_texts@[i])@
                        == old(self).texts@[i]
            },
        ensures
            match result {
                Ok(()) => {
                    &&& final(self).well_formed()
                    &&& final(self).same_source(*old(self))
                    &&& final(self).position == old(self).position
                    &&& !final(self).may_be_empty()
                    &&& forall|file: Seq<u8>|
                        file.len() == old(self).file_size ==> #[trigger] final(self).outcome(file)
                            == old(self).rest_of_texts(file, count as nat)
                },
                Err(error) => forall|file: Seq<u8>|
                    file.len() == old(self).file_size ==> #[trigger] old(self).rest_of_texts(file, count as nat)
                        == Err::<Document, Failure>(error@),
            },
    {
        proof {
            reveal(grammar::text_at);
            reveal(grammar::entry_with_value);
            reveal(grammar::document_with_entries);
        }
        if self.texts_done < count {
            self.stage = Stage::ItemLength(count);
            return Ok(());
        }
        let ghost before = *self;
        let ghost model = grammar::text_array(self.texts@);
        let mut kept_texts: Vec<&'a str> = Vec::new();
        std::mem::swap(&mut kept_texts, &mut self.kept_texts);
        let value = match self.header_limit {
            Some(_) => None,
            None => {
                let array = MetadataArray::strings(kept_texts);
                assert(array@ =~= before.texts@.map_values(
                    |text: Seq<char>| Scalar::String(text),
                ));
                Some(MetadataValue::Array(array))
            },
        };
        let ghost after = *self;
        assert(forall|file: Seq<u8>|
            file.len() == before.file_size ==> #[trigger] before.rest_of_texts(file, count as nat)
                == after.with_value(
                file,
                Ok(Located { value: model, end: after.position as nat }),
            ));
        self.finish_value(value, MetadataType::Array, None, Ghost(model))
    }

    /// Goes on behind the length of an array.
    fn start_items(&mut self, element_type: MetadataType, count: usize) -> (result: Result<
        (),
        Error,
    >)
        requires
            old(self).in_value(),
            element_type != MetadataType::Array,
        ensures
            match result {
                Ok(()) => {
                    &&& final(self).well_formed()
                    &&& final(self).same_source(*old(self))
                    &&& final(self).position == old(self).position
                    &&& forall|file: Seq<u8>|
                        file.len() == old(self).file_size ==> #[trigger] final(self).outcome(file)
                            == old(self).with_items(file, element_type, count as nat)
                },
                Err(error) => forall|file: Seq<u8>|
                    file.len() == old(self).file_size ==> #[trigger] old(self).with_items(
                        file,
                        element_type,
                        count as nat,
                    ) == Err::<Document, Failure>(error@),
            },
    {
        proof {
            reveal(grammar::items_at);
            reveal(grammar::fixed_array_at);
            reveal(grammar::entry_with_value);
            reveal(grammar::document_with_entries);
        }
        if element_type == MetadataType::String {
            if let Some(kind) = self.reach_table(count, 8, "metadata string array headers") {
                return Err(self.error(kind));
            }
            let ghost start = *self;
            self.texts = Ghost(Seq::empty());
            self.texts_done = 0;
            self.kept_texts = Vec::new();
            let ghost before = *self;
            assert(forall|file: Seq<u8>|
                file.len() == start.file_size ==> #[trigger] start.with_items(
                    file,
                    element_type,
                    count as nat,
                ) == before.rest_of_texts(file, count as nat));
            return self.next_text(count);
        }
        let width: usize = match element_type.fixed_width() {
            Some(width) => width,
            None => 0,
        };
        let length: usize = match count.checked_mul(width) {
            Some(length) => length,
            None => {
                return Err(self.error(ErrorKind::IntegerOverflow("metadata array byte count")));
            },
        };
        if element_type == MetadataType::Bool && self.header_limit.is_some() {
            assert(length == count);
            self.stage = Stage::Flags { remaining: length, invalid: None };
        } else {
            self.stage = Stage::FixedItems { element_type, count, length };
        }
        Ok(())
    }

    /// What the file comes to if the parser stands before the items of an
    /// array.
    pub(crate) open spec fn with_items(
        self,
        file: Seq<u8>,
        element_type: MetadataType,
        count: nat,
    ) -> Result<Document, Failure> {
        self.with_value(
            file,
            grammar::items_at(
                self.rules(),
                file,
                self.position as nat,
                element_type,
                count,
            ),
        )
    }

    /// What the file comes to once the name under way was read as `name`.
    pub(crate) open spec fn with_name(self, file: Seq<u8>, name: Seq<char>) -> Result<
        Document,
        Failure,
    > {
        self.with_tensor(
            file,
            grammar::tensor_with_name(
                self.rules(),
                file,
                self.alignment,
                self.rows@,
                Ok(Located { value: name, end: self.position as nat }),
            ),
        )
    }

    /// Tests whether a name may follow the names read so far.
    fn check_name(&self, name: &str) -> (kind: Option<ErrorKind>)
        requires
            self.rows_agree(),
        ensures
            match grammar::name_fault(self.rows@, name@) {
                Some(fault) => kind matches Some(kind) && kind@ == fault,
                None => kind is None,
            },
    {
        proof {
            reveal(grammar::name_fault);
        }
        let length: usize = name.as_bytes().len();
        if length > MAX_TENSOR_NAME_BYTES {
            return Some(ErrorKind::TensorNameTooLong(length));
        }
        if contains_nul(name) {
            return Some(ErrorKind::TensorNameContainsNul);
        }
        if self.names.contains(name) {
            return Some(ErrorKind::DuplicateTensorName(text::owned(name)));
        }
        None
    }

    /// Goes on behind the name of a tensor.
    fn finish_name(&mut self, name: &str, kept: Option<&'a str>) -> (result: Result<(), Error>)
        requires
            old(self).in_table(),
            old(self).rows@.len() < old(self).tensor_count,
            old(self).keeps() ==> (kept matches Some(kept) && kept@ == name@),
        ensures
            match result {
                Ok(()) => {
                    &&& final(self).well_formed()
                    &&& final(self).same_source(*old(self))
                    &&& final(self).position == old(self).position
                    &&& !final(self).may_be_empty()
                    &&& forall|file: Seq<u8>|
                        file.len() == old(self).file_size ==> #[trigger] final(self).outcome(file)
                            == old(self).with_name(file, name@)
                },
                Err(error) => forall|file: Seq<u8>|
                    file.len() == old(self).file_size ==> #[trigger] old(self).with_name(file, name@)
                        == Err::<Document, Failure>(error@),
            },
    {
        proof {
            reveal(grammar::tensor_with_name);
            reveal(grammar::document_with_tensors);
        }
        if let Some(kind) = self.check_name(name) {
            return Err(self.error(kind));
        }
        self.name = text::owned(name);
        self.kept_name = kept;
        self.stage = Stage::DimensionCount;
        Ok(())
    }

    /// What the file comes to if the parser stands behind a dimension.
    pub(crate) open spec fn rest_of_shape(self, file: Seq<u8>) -> Result<Document, Failure> {
        self.with_tensor(
            file,
            grammar::tensor_with_shape(
                self.rules(),
                file,
                self.alignment,
                self.rows@,
                self.name@,
                grammar::shape_from(
                    self.rules(),
                    file,
                    self.position as nat,
                    self.dimension_count as nat,
                    self.shape(),
                ),
            ),
        )
    }

    /// Goes on behind a dimension, or behind the last one.
    fn next_dimension(&mut self)
        requires
            old(self).in_row(),
            old(self).shape_agrees(),
        ensures
            final(self).well_formed(),
            final(self).same_source(*old(self)),
            final(self).position == old(self).position,
            !final(self).may_be_empty(),
            forall|file: Seq<u8>| #[trigger]
                final(self).outcome(file) == old(self).rest_of_shape(file),
    {
        if self.dimensions_done < self.dimension_count as usize {
            self.stage = Stage::Dimension;
        } else {
            self.stage = Stage::TensorType;
        }
    }

    /// What is handed over is what stands in every matching file.
    proof fn lemma_chunks(self, chunk: Seq<u8>)
        requires
            self.reaches(chunk.len()),
        ensures
            forall|file: Seq<u8>| #[trigger]
                self.matches(file, chunk) ==> grammar::bytes_at(
                    self.rules(),
                    file,
                    self.position as nat,
                    chunk.len(),
                ) == Ok::<Located<Seq<u8>>, Failure>(
                    Located { value: chunk, end: self.position as nat + chunk.len() },
                ),
    {
        reveal(grammar::bytes_at);
    }

    /// Takes the mark that every file starts with.
    fn step_magic(&mut self, chunk: &[u8]) -> (result: Result<(), Error>)
        requires
            old(self).well_formed(),
            old(self).stage is Magic,
            chunk@.len() == old(self).field_bytes(),
            old(self).reaches(chunk@.len()),
        ensures
            old(self).continues(*final(self), result, chunk@),
    {
        let ghost start = *self;
        self.position = self.position + chunk.len();
        proof {
            start.lemma_chunks(chunk@);
        }
        let magic: [u8; 4] = [chunk[0], chunk[1], chunk[2], chunk[3]];
        assert(magic@ =~= chunk@);
        if magic[0] != 71 || magic[1] != 71 || magic[2] != 85 || magic[3] != 70 {
            return Err(self.error(ErrorKind::InvalidMagic(magic)));
        }
        assert(chunk@ =~= seq![71u8, 71u8, 85u8, 70u8]);
        self.stage = Stage::Version;
        Ok(())
    }

    /// Takes the version of the format.
    fn step_version(&mut self, chunk: &[u8]) -> (result: Result<(), Error>)
        requires
            old(self).well_formed(),
            old(self).stage is Version,
            chunk@.len() == old(self).field_bytes(),
            old(self).reaches(chunk@.len()),
        ensures
            old(self).continues(*final(self), result, chunk@),
    {
        proof {
            reveal(grammar::document_version_at);
        }
        let ghost start = *self;
        self.position = self.position + chunk.len();
        proof {
            start.lemma_chunks(chunk@);
        }
        let version: u32 = bytes::read_le(chunk) as u32;
        let reversed: [u8; 4] = [chunk[3], chunk[2], chunk[1], chunk[0]];
        assert(reversed@ =~= chunk@.reverse());
        let swapped: u64 = bytes::read_le(&reversed);
        if 2 <= swapped && swapped <= 3 {
            return Err(self.error(ErrorKind::EndiannessMismatch(version)));
        }
        if !(2 <= version && version <= 3) {
            return Err(self.error(ErrorKind::UnsupportedVersion(version)));
        }
        self.version = version;
        self.stage = Stage::TensorCount;
        Ok(())
    }

    /// Tests a number against a limit and the machine's range.
    fn check_count(&self, value: u64, field: &'static str, limit: u64) -> (result: Result<
        usize,
        Error,
    >)
        ensures
            match result {
                Ok(count) => count == value && grammar::count_fault(
                    field@,
                    value as nat,
                    limit as nat,
                ) is None,
                Err(error) => error@.offset == self.position && grammar::count_fault(
                    field@,
                    value as nat,
                    limit as nat,
                ) == Some(error@.fault),
            },
    {
        if value > limit {
            return Err(self.error(ErrorKind::LimitExceeded { field, value, limit }));
        }
        if value > usize::MAX as u64 {
            return Err(self.error(ErrorKind::IntegerOverflow(field)));
        }
        Ok(value as usize)
    }

    /// Takes the number of tensors.
    fn step_tensor_count(&mut self, chunk: &[u8]) -> (result: Result<(), Error>)
        requires
            old(self).well_formed(),
            old(self).stage is TensorCount,
            chunk@.len() == old(self).field_bytes(),
            old(self).reaches(chunk@.len()),
        ensures
            old(self).continues(*final(self), result, chunk@),
    {
        proof {
            reveal(grammar::document_tensors_at);
            reveal(grammar::count_at);
            reveal(grammar::number_at);
        }
        let ghost start = *self;
        self.position = self.position + chunk.len();
        proof {
            start.lemma_chunks(chunk@);
        }
        let value: u64 = bytes::read_le(chunk);
        match self.check_count(value, "tensor count", self.limits.max_tensors) {
            Ok(count) => {
                self.tensor_count = count;
            },
            Err(error) => {
                return Err(error);
            },
        }
        self.stage = Stage::EntryCount;
        Ok(())
    }

    /// Takes the number of metadata entries.
    fn step_entry_count(&mut self, chunk: &[u8]) -> (result: Result<(), Error>)
        requires
            old(self).well_formed(),
            old(self).stage is EntryCount,
            chunk@.len() == old(self).field_bytes(),
            old(self).reaches(chunk@.len()),
        ensures
            old(self).continues(*final(self), result, chunk@),
    {
        proof {
            reveal(grammar::document_entries_at);
            reveal(grammar::count_at);
            reveal(grammar::number_at);
        }
        let ghost start = *self;
        self.position = self.position + chunk.len();
        proof {
            start.lemma_chunks(chunk@);
        }
        let value: u64 = bytes::read_le(chunk);
        match self.check_count(value, "metadata count", self.limits.max_metadata_entries) {
            Ok(count) => {
                self.entry_count = count;
            },
            Err(error) => {
                return Err(error);
            },
        }
        if let Some(kind) = self.reach_table(
            self.entry_count,
            MIN_METADATA_ENTRY_BYTES,
            "metadata table",
        ) {
            return Err(self.error(kind));
        }
        let ghost before = *self;
        assert(forall|file: Seq<u8>| #[trigger]
            start.matches(file, chunk@) ==> start.outcome(file) == before.rest_of_metadata(file));
        self.next_entry()
    }

    /// Takes the length of a metadata key.
    fn step_key_length(&mut self, chunk: &[u8]) -> (result: Result<(), Error>)
        requires
            old(self).well_formed(),
            old(self).stage is KeyLength,
            chunk@.len() == old(self).field_bytes(),
            old(self).reaches(chunk@.len()),
        ensures
            old(self).continues(*final(self), result, chunk@),
    {
        proof {
            reveal(grammar::text_at);
            reveal(grammar::count_at);
            reveal(grammar::number_at);
            reveal(grammar::entry_with_key);
            reveal(grammar::document_with_entries);
        }
        let ghost start = *self;
        self.position = self.position + chunk.len();
        proof {
            start.lemma_chunks(chunk@);
        }
        let value: u64 = bytes::read_le(chunk);
        match self.check_count(value, "metadata key", self.limits.max_string_bytes) {
            Ok(length) => {
                self.stage = Stage::KeyBytes(length);
                Ok(())
            },
            Err(error) => Err(error),
        }
    }

    /// Takes a metadata key.
    fn step_key_bytes(&mut self, chunk: &[u8], kept: Option<&'a [u8]>) -> (result: Result<(), Error>)
        requires
            old(self).well_formed(),
            old(self).stage is KeyBytes,
            chunk@.len() == old(self).field_bytes(),
            old(self).reaches(chunk@.len()),
            old(self).keeps() <==> kept is Some,
            kept matches Some(kept) ==> kept@ == chunk@,
        ensures
            old(self).continues(*final(self), result, chunk@),
    {
        proof {
            reveal(grammar::characters_at);
            reveal(grammar::entry_with_key);
            reveal(grammar::document_with_entries);
        }
        let ghost start = *self;
        self.position = self.position + chunk.len();
        proof {
            start.lemma_chunks(chunk@);
        }
        let ghost before = *self;
        match decode_pair(chunk, kept) {
            Some((text, kept)) => {
                assert(forall|file: Seq<u8>| #[trigger]
                    start.matches(file, chunk@) ==> start.outcome(file) == before.with_key(
                        file,
                        text@,
                    ));
                self.finish_key(text, kept)
            },
            None => Err(self.error(ErrorKind::InvalidUtf8("metadata key"))),
        }
    }

    /// Takes the type of a metadata value.
    fn step_value_type(&mut self, chunk: &[u8]) -> (result: Result<(), Error>)
        requires
            old(self).well_formed(),
            old(self).stage is ValueType,
            chunk@.len() == old(self).field_bytes(),
            old(self).reaches(chunk@.len()),
        ensures
            old(self).continues(*final(self), result, chunk@),
    {
        let ghost start = *self;
        self.position = self.position + chunk.len();
        proof {
            reveal(grammar::value_at);
            reveal(grammar::number_at);
            reveal(grammar::entry_with_value);
            reveal(grammar::document_with_entries);
            start.lemma_chunks(chunk@);
        }
        let code: u32 = bytes::read_le(chunk) as u32;
        match MetadataType::try_from(code) {
            Ok(MetadataType::Array) => {
                self.stage = Stage::ItemType;
                Ok(())
            },
            Ok(value_type) => {
                self.stage = Stage::Scalar(value_type);
                Ok(())
            },
            Err(()) => Err(self.error(ErrorKind::InvalidMetadataType(code))),
        }
    }

    /// Takes a scalar, or the length of one that is a text.
    fn step_scalar(&mut self, chunk: &[u8]) -> (result: Result<(), Error>)
        requires
            old(self).well_formed(),
            old(self).stage is Scalar,
            chunk@.len() == old(self).field_bytes(),
            old(self).reaches(chunk@.len()),
        ensures
            old(self).continues(*final(self), result, chunk@),
    {
        let ghost start = *self;
        self.position = self.position + chunk.len();
        proof {
            reveal(grammar::scalar_at);
            reveal(grammar::text_at);
            reveal(grammar::count_at);
            reveal(grammar::number_at);
            reveal(grammar::entry_with_value);
            reveal(grammar::document_with_entries);
            start.lemma_chunks(chunk@);
        }
        let value_type = match self.stage {
            Stage::Scalar(value_type) => value_type,
            _ => MetadataType::U8,
        };
        if value_type == MetadataType::String {
            let value: u64 = bytes::read_le(chunk);
            return match self.check_count(
                value,
                "metadata string",
                self.limits.max_string_bytes,
            ) {
                Ok(length) => {
                    self.stage = Stage::TextBytes(length);
                    Ok(())
                },
                Err(error) => Err(error),
            };
        }
        if value_type == MetadataType::Bool && chunk[0] > 1 {
            return Err(self.error(ErrorKind::InvalidBoolean(chunk[0])));
        }
        let scalar = types::decode_scalar(value_type, chunk);
        let alignment: Option<u32> = match scalar {
            ScalarValue::U32(value) => Some(value),
            _ => None,
        };
        let ghost model = Value::Scalar(scalar@);
        let ghost before = *self;
        assert(forall|file: Seq<u8>| #[trigger]
            start.matches(file, chunk@) ==> start.outcome(file) == before.with_value(
                file,
                Ok(Located { value: model, end: before.position as nat }),
            ));
        self.finish_value(
            Some(MetadataValue::Scalar(scalar)),
            value_type,
            alignment,
            Ghost(model),
        )
    }

    /// Takes a text that is a metadata value.
    fn step_text(&mut self, chunk: &[u8], kept: Option<&'a [u8]>) -> (result: Result<(), Error>)
        requires
            old(self).well_formed(),
            old(self).stage is TextBytes,
            chunk@.len() == old(self).field_bytes(),
            old(self).reaches(chunk@.len()),
            old(self).keeps() <==> kept is Some,
            kept matches Some(kept) ==> kept@ == chunk@,
        ensures
            old(self).continues(*final(self), result, chunk@),
    {
        let ghost start = *self;
        self.position = self.position + chunk.len();
        proof {
            reveal(grammar::characters_at);
            reveal(grammar::entry_with_value);
            reveal(grammar::document_with_entries);
            start.lemma_chunks(chunk@);
        }
        let ghost before = *self;
        match decode_pair(chunk, kept) {
            Some((text, kept)) => {
                let ghost model = Value::Scalar(Scalar::String(text@));
                assert(forall|file: Seq<u8>| #[trigger]
                    start.matches(file, chunk@) ==> start.outcome(file) == before.with_value(
                        file,
                        Ok(Located { value: model, end: before.position as nat }),
                    ));
                let value = match kept {
                    Some(text) => Some(MetadataValue::Scalar(ScalarValue::String(text))),
                    None => None,
                };
                self.finish_value(value, MetadataType::String, None, Ghost(model))
            },
            None => Err(self.error(ErrorKind::InvalidUtf8("metadata string"))),
        }
    }

    /// Takes the type of the items of an array.
    fn step_item_type(&mut self, chunk: &[u8]) -> (result: Result<(), Error>)
        requires
            old(self).well_formed(),
            old(self).stage is ItemType,
            chunk@.len() == old(self).field_bytes(),
            old(self).reaches(chunk@.len()),
        ensures
            old(self).continues(*final(self), result, chunk@),
    {
        let ghost start = *self;
        self.position = self.position + chunk.len();
        proof {
            reveal(grammar::array_at);
            reveal(grammar::number_at);
            reveal(grammar::entry_with_value);
            reveal(grammar::document_with_entries);
            start.lemma_chunks(chunk@);
        }
        let code: u32 = bytes::read_le(chunk) as u32;
        match MetadataType::try_from(code) {
            Ok(MetadataType::Array) => Err(self.error(ErrorKind::NestedMetadataArray)),
            Ok(element_type) => {
                self.stage = Stage::ItemCount(element_type);
                Ok(())
            },
            Err(()) => Err(self.error(ErrorKind::InvalidMetadataType(code))),
        }
    }

    /// Takes the number of items of an array.
    fn step_item_count(&mut self, chunk: &[u8]) -> (result: Result<(), Error>)
        requires
            old(self).well_formed(),
            old(self).stage is ItemCount,
            chunk@.len() == old(self).field_bytes(),
            old(self).reaches(chunk@.len()),
        ensures
            old(self).continues(*final(self), result, chunk@),
    {
        let ghost start = *self;
        self.position = self.position + chunk.len();
        proof {
            reveal(grammar::array_length_at);
            reveal(grammar::count_at);
            reveal(grammar::number_at);
            reveal(grammar::entry_with_value);
            reveal(grammar::document_with_entries);
            start.lemma_chunks(chunk@);
        }
        let element_type = match self.stage {
            Stage::ItemCount(element_type) => element_type,
            _ => MetadataType::U8,
        };
        let value: u64 = bytes::read_le(chunk);
        let count: usize = match self.check_count(
            value,
            "metadata array length",
            self.limits.max_array_elements,
        ) {
            Ok(count) => count,
            Err(error) => {
                return Err(error);
            },
        };
        let ghost before = *self;
        assert(forall|file: Seq<u8>| #[trigger]
            start.matches(file, chunk@) ==> start.outcome(file) == before.with_items(
                file,
                element_type,
                count as nat,
            ));
        self.start_items(element_type, count)
    }

    /// Takes the length of a text in an array.
    fn step_item_length(&mut self, chunk: &[u8]) -> (result: Result<(), Error>)
        requires
            old(self).well_formed(),
            old(self).stage is ItemLength,
            chunk@.len() == old(self).field_bytes(),
            old(self).reaches(chunk@.len()),
        ensures
            old(self).continues(*final(self), result, chunk@),
    {
        let ghost start = *self;
        self.position = self.position + chunk.len();
        proof {
            reveal(grammar::text_at);
            reveal(grammar::count_at);
            reveal(grammar::number_at);
            reveal(grammar::entry_with_value);
            reveal(grammar::document_with_entries);
            start.lemma_chunks(chunk@);
        }
        let count: usize = match self.stage {
            Stage::ItemLength(count) => count,
            _ => 0,
        };
        let value: u64 = bytes::read_le(chunk);
        match self.check_count(value, "metadata array string", self.limits.max_string_bytes) {
            Ok(length) => {
                self.stage = Stage::ItemBytes { count, length };
                Ok(())
            },
            Err(error) => Err(error),
        }
    }

    /// Takes a text in an array.
    fn step_item_bytes(&mut self, chunk: &[u8], kept: Option<&'a [u8]>) -> (result: Result<(), Error>)
        requires
            old(self).well_formed(),
            old(self).stage is ItemBytes,
            chunk@.len() == old(self).field_bytes(),
            old(self).reaches(chunk@.len()),
            old(self).keeps() <==> kept is Some,
            kept matches Some(kept) ==> kept@ == chunk@,
        ensures
            old(self).continues(*final(self), result, chunk@),
    {
        let ghost start = *self;
        self.position = self.position + chunk.len();
        proof {
            reveal(grammar::characters_at);
            reveal(grammar::entry_with_value);
            reveal(grammar::document_with_entries);
            start.lemma_chunks(chunk@);
        }
        let count: usize = match self.stage {
            Stage::ItemBytes { count, .. } => count,
            _ => 0,
        };
        match decode_pair(chunk, kept) {
            Some((text, kept)) => {
                self.texts = Ghost(self.texts@.push(text@));
                self.texts_done = self.texts_done + 1;
                if let Some(text) = kept {
                    self.kept_texts.push(text);
                }
                let ghost before = *self;
                assert(forall|file: Seq<u8>| #[trigger]
                    start.matches(file, chunk@) ==> start.outcome(file) == before.rest_of_texts(
                        file,
                        count as nat,
                    ));
                self.next_text(count)
            },
            None => Err(self.error(ErrorKind::InvalidUtf8("metadata array string"))),
        }
    }

    /// Takes the items of an array of scalars of fixed width.
    fn step_fixed_items(&mut self, chunk: &[u8], kept: Option<&'a [u8]>) -> (result: Result<(), Error>)
        requires
            old(self).well_formed(),
            old(self).stage is FixedItems,
            chunk@.len() == old(self).field_bytes(),
            old(self).reaches(chunk@.len()),
            old(self).keeps() <==> kept is Some,
            kept matches Some(kept) ==> kept@ == chunk@,
        ensures
            old(self).continues(*final(self), result, chunk@),
    {
        let ghost start = *self;
        self.position = self.position + chunk.len();
        proof {
            reveal(grammar::fixed_array_at);
            reveal(grammar::entry_with_value);
            reveal(grammar::document_with_entries);
            start.lemma_chunks(chunk@);
        }
        let (element_type, count): (MetadataType, usize) = match self.stage {
            Stage::FixedItems { element_type, count, .. } => (element_type, count),
            _ => (MetadataType::U8, 0),
        };
        if element_type == MetadataType::Bool {
            if let Some(byte) = find_invalid_flag(chunk) {
                return Err(self.error(ErrorKind::InvalidBoolean(byte)));
            }
        }
        let ghost model = grammar::fixed_array(
            self.rules(),
            element_type,
            count as nat,
            chunk@,
        );
        let ghost before = *self;
        assert(forall|file: Seq<u8>| #[trigger]
            start.matches(file, chunk@) ==> start.outcome(file) == before.with_value(
                file,
                Ok(Located { value: model, end: before.position as nat }),
            ));
        let value = match kept {
            Some(bytes) => Some(
                MetadataValue::Array(MetadataArray::fixed(element_type, count, bytes)),
            ),
            None => None,
        };
        self.finish_value(value, MetadataType::Array, None, Ghost(model))
    }

    /// Passes over the items of an array of scalars of fixed width.
    pub(crate) fn skip(&mut self) -> (result: Result<(), Error>)
        requires
            old(self).well_formed(),
            old(self).stage is FixedItems,
            !old(self).keeps(),
            old(self).reaches(old(self).field_bytes()),
        ensures
            match result {
                Ok(()) => {
                    &&& final(self).well_formed()
                    &&& final(self).same_source(*old(self))
                    &&& final(self).position == old(self).position + old(self).field_bytes()
                    &&& !final(self).may_be_empty()
                    &&& forall|file: Seq<u8>|
                        file.len() == old(self).file_size ==> old(self).outcome(file)
                            == #[trigger] final(self).outcome(file)
                },
                Err(error) => forall|file: Seq<u8>|
                    file.len() == old(self).file_size ==> #[trigger] old(self).outcome(file)
                        == Err::<Document, Failure>(error@),
            },
    {
        let ghost start = *self;
        let (element_type, length): (MetadataType, usize) = match self.stage {
            Stage::FixedItems { element_type, length, .. } => (element_type, length),
            _ => (MetadataType::U8, 0),
        };
        self.position = self.position + length;
        let ghost model = Value::Array { element_type, items: seq![] };
        let ghost before = *self;
        proof {
            reveal(grammar::fixed_array_at);
            reveal(grammar::bytes_at);
            reveal(grammar::entry_with_value);
            assert(forall|file: Seq<u8>|
                file.len() == start.file_size ==> #[trigger] start.outcome(file)
                    == before.with_value(
                    file,
                    Ok(Located { value: model, end: before.position as nat }),
                ));
        }
        self.finish_value(None, MetadataType::Array, None, Ghost(model))
    }

    /// Takes some of the items of a boolean array.
    fn step_flags(&mut self, chunk: &[u8]) -> (result: Result<(), Error>)
        requires
            old(self).well_formed(),
            old(self).stage is Flags,
            chunk@.len() == grammar::smaller(
                old(self).field_bytes(),
                FLAG_CHUNK_BYTES as nat,
            ),
            old(self).reaches(old(self).field_bytes()),
        ensures
            old(self).continues(*final(self), result, chunk@),
    {
        let ghost start = *self;
        let (remaining, earlier): (usize, Option<u8>) = match self.stage {
            Stage::Flags { remaining, invalid } => (remaining, invalid),
            _ => (0, None),
        };
        let invalid: Option<u8> = match earlier {
            Some(byte) => Some(byte),
            None => find_invalid_flag(chunk),
        };
        self.position = self.position + chunk.len();
        let left: usize = remaining - chunk.len();
        let ghost before = *self;
        proof {
            reveal(grammar::bytes_at);
            reveal(grammar::entry_with_value);
            reveal(grammar::document_with_entries);
            assert forall|file: Seq<u8>| #[trigger] start.matches(file, chunk@) implies ({
                &&& start.flags_at(file, remaining as nat, earlier) == before.flags_at(
                    file,
                    left as nat,
                    invalid,
                )
            }) by {
                let at = start.position as int;
                let whole = file.subrange(at, at + remaining);
                let rest = file.subrange(at + chunk@.len(), at + remaining);
                assert(whole =~= chunk@ + rest);
                grammar::lemma_invalid_flag_concat(chunk@, rest);
            }
        }
        if left > 0 {
            self.stage = Stage::Flags { remaining: left, invalid };
            return Ok(());
        }
        let ghost model = Value::Array { element_type: MetadataType::Bool, items: seq![] };
        proof {
            assert forall|file: Seq<u8>| #[trigger] start.matches(file, chunk@) implies before.flags_at(
                file,
                0,
                invalid,
            ) == (match invalid {
                Some(byte) => grammar::fail(before.position as nat, Fault::InvalidBoolean(byte)),
                None => Ok(Located { value: model, end: before.position as nat }),
            }) by {
                let at = before.position as int;
                assert(file.subrange(at, at) =~= seq![]);
            }
        }
        if let Some(byte) = invalid {
            return Err(self.error(ErrorKind::InvalidBoolean(byte)));
        }
        assert(forall|file: Seq<u8>| #[trigger]
            start.matches(file, chunk@) ==> start.outcome(file) == before.with_value(
                file,
                Ok(Located { value: model, end: before.position as nat }),
            ));
        self.finish_value(None, MetadataType::Array, None, Ghost(model))
    }

    /// Takes the length of the name of a tensor.
    fn step_name_length(&mut self, chunk: &[u8]) -> (result: Result<(), Error>)
        requires
            old(self).well_formed(),
            old(self).stage is NameLength,
            chunk@.len() == old(self).field_bytes(),
            old(self).reaches(chunk@.len()),
        ensures
            old(self).continues(*final(self), result, chunk@),
    {
        let ghost start = *self;
        self.position = self.position + chunk.len();
        proof {
            reveal(grammar::tensor_with_name);
            reveal(grammar::text_at);
            reveal(grammar::count_at);
            reveal(grammar::number_at);
            reveal(grammar::document_with_tensors);
            start.lemma_chunks(chunk@);
        }
        let value: u64 = bytes::read_le(chunk);
        match self.check_count(value, "tensor name", self.limits.max_string_bytes) {
            Ok(length) => {
                self.stage = Stage::NameBytes(length);
                Ok(())
            },
            Err(error) => Err(error),
        }
    }

    /// Takes the name of a tensor.
    fn step_name_bytes(&mut self, chunk: &[u8], kept: Option<&'a [u8]>) -> (result: Result<(), Error>)
        requires
            old(self).well_formed(),
            old(self).stage is NameBytes,
            chunk@.len() == old(self).field_bytes(),
            old(self).reaches(chunk@.len()),
            old(self).keeps() <==> kept is Some,
            kept matches Some(kept) ==> kept@ == chunk@,
        ensures
            old(self).continues(*final(self), result, chunk@),
    {
        let ghost start = *self;
        self.position = self.position + chunk.len();
        proof {
            reveal(grammar::tensor_with_name);
            reveal(grammar::characters_at);
            reveal(grammar::document_with_tensors);
            start.lemma_chunks(chunk@);
        }
        let ghost before = *self;
        match decode_pair(chunk, kept) {
            Some((text, kept)) => {
                assert(forall|file: Seq<u8>| #[trigger]
                    start.matches(file, chunk@) ==> start.outcome(file) == before.with_name(
                        file,
                        text@,
                    ));
                self.finish_name(text, kept)
            },
            None => Err(self.error(ErrorKind::InvalidUtf8("tensor name"))),
        }
    }

    /// Takes the number of dimensions of a tensor.
    fn step_dimension_count(&mut self, chunk: &[u8]) -> (result: Result<(), Error>)
        requires
            old(self).well_formed(),
            old(self).stage is DimensionCount,
            chunk@.len() == old(self).field_bytes(),
            old(self).reaches(chunk@.len()),
        ensures
            old(self).continues(*final(self), result, chunk@),
    {
        let ghost start = *self;
        self.position = self.position + chunk.len();
        proof {
            reveal(grammar::tensor_shape_at);
            reveal(grammar::number_at);
            reveal(grammar::document_with_tensors);
            start.lemma_chunks(chunk@);
        }
        let count: u32 = bytes::read_le(chunk) as u32;
        if count > 4 {
            return Err(self.error(ErrorKind::TooManyDimensions(count)));
        }
        self.dimensions = [1, 1, 1, 1];
        self.dimension_count = count;
        self.dimensions_done = 0;
        self.element_count = 1;
        let ghost before = *self;
        assert(before.shape() =~= seq![]);
        assert(forall|file: Seq<u8>| #[trigger]
            start.matches(file, chunk@) ==> start.outcome(file) == before.rest_of_shape(file));
        self.next_dimension();
        Ok(())
    }

    /// Takes a dimension of a tensor.
    fn step_dimension(&mut self, chunk: &[u8]) -> (result: Result<(), Error>)
        requires
            old(self).well_formed(),
            old(self).stage is Dimension,
            chunk@.len() == old(self).field_bytes(),
            old(self).reaches(chunk@.len()),
        ensures
            old(self).continues(*final(self), result, chunk@),
    {
        let ghost start = *self;
        self.position = self.position + chunk.len();
        proof {
            reveal(grammar::tensor_with_shape);
            reveal(grammar::number_at);
            reveal(grammar::document_with_tensors);
            start.lemma_chunks(chunk@);
        }
        let value: u64 = bytes::read_le(chunk);
        let ghost longer = start.shape().push(value);
        assert(longer.drop_last() =~= start.shape());
        if value > i64::MAX as u64 {
            return Err(self.error(ErrorKind::InvalidDimension(value)));
        }
        let element_count: u64 = match self.element_count.checked_mul(value) {
            Some(element_count) => element_count,
            None => {
                return Err(self.error(ErrorKind::IntegerOverflow("tensor element count")));
            },
        };
        if element_count > i64::MAX as u64 {
            return Err(self.error(ErrorKind::IntegerOverflow("tensor element count")));
        }
        self.dimensions[self.dimensions_done] = value;
        self.dimensions_done = self.dimensions_done + 1;
        self.element_count = element_count;
        let ghost before = *self;
        assert(before.shape() =~= longer);
        assert(forall|file: Seq<u8>| #[trigger]
            start.matches(file, chunk@) ==> start.outcome(file) == before.rest_of_shape(file));
        self.next_dimension();
        Ok(())
    }

    /// The number of bytes that the tensor under way occupies if it is stored
    /// with a given type.
    fn stored_bytes(&self, value_type: TensorType) -> (length: Option<u64>)
        requires
            self.shape_agrees(),
        ensures
            match length {
                Some(length) => length == grammar::stored_bytes(self.shape(), value_type.code()),
                None => grammar::stored_bytes(self.shape(), value_type.code()) > u64::MAX,
            },
    {
        let blocks: u64 = self.element_count / value_type.block_size();
        blocks.checked_mul(value_type.type_size())
    }

    /// Takes the storage type of a tensor.
    fn step_tensor_type(&mut self, chunk: &[u8]) -> (result: Result<(), Error>)
        requires
            old(self).well_formed(),
            old(self).stage is TensorType,
            chunk@.len() == old(self).field_bytes(),
            old(self).reaches(chunk@.len()),
        ensures
            old(self).continues(*final(self), result, chunk@),
    {
        let ghost start = *self;
        self.position = self.position + chunk.len();
        proof {
            reveal(grammar::tensor_with_shape);
            reveal(grammar::number_at);
            reveal(grammar::document_with_tensors);
            start.lemma_chunks(chunk@);
        }
        let code: u32 = bytes::read_le(chunk) as u32;
        let value_type = match TensorType::from_code(code) {
            Some(value_type) => value_type,
            None => {
                return Err(self.error(ErrorKind::InvalidTensorType(code)));
            },
        };
        let block_size: u64 = value_type.block_size();
        let row: u64 = self.dimensions[0];
        assert(row == grammar::row_length(start.shape()));
        if row % block_size != 0 {
            return Err(
                self.error(
                    ErrorKind::TensorRowNotDivisible { elements_per_row: row, block_size },
                ),
            );
        }
        if self.stored_bytes(value_type).is_none() {
            return Err(self.error(ErrorKind::IntegerOverflow("tensor byte length")));
        }
        self.stage = Stage::TensorOffset(value_type);
        Ok(())
    }

    /// Takes the place of the data of a tensor.
    fn step_tensor_offset(&mut self, chunk: &[u8]) -> (result: Result<(), Error>)
        requires
            old(self).well_formed(),
            old(self).stage is TensorOffset,
            chunk@.len() == old(self).field_bytes(),
            old(self).reaches(chunk@.len()),
        ensures
            old(self).continues(*final(self), result, chunk@),
    {
        let ghost start = *self;
        self.position = self.position + chunk.len();
        proof {
            reveal(grammar::tensor_with_type);
            reveal(grammar::number_at);
            reveal(grammar::document_with_tensors);
            start.lemma_chunks(chunk@);
        }
        let offset: u64 = bytes::read_le(chunk);
        let value_type = match self.stage {
            Stage::TensorOffset(value_type) => value_type,
            _ => {
                return Ok(());
            },
        };
        let byte_len: u64 = match self.stored_bytes(value_type) {
            Some(byte_len) => byte_len,
            None => 0,
        };
        proof {
            lemma_pow2_positive(self.alignment);
        }
        let alignment: u64 = self.alignment as u64;
        if offset % alignment != 0 {
            return Err(
                self.error(
                    ErrorKind::MisalignedTensorOffset { offset, alignment: self.alignment },
                ),
            );
        }
        if offset != self.expected_offset {
            return Err(
                self.error(
                    ErrorKind::UnexpectedTensorOffset {
                        expected: self.expected_offset,
                        actual: offset,
                    },
                ),
            );
        }
        let padded: u64 = match align_up(byte_len, alignment, u64::MAX) {
            Some(padded) => padded,
            None => {
                return Err(self.error(ErrorKind::IntegerOverflow("padded tensor byte length")));
            },
        };
        let expected_offset: u64 = match self.expected_offset.checked_add(padded) {
            Some(expected_offset) => expected_offset,
            None => {
                return Err(self.error(ErrorKind::IntegerOverflow("tensor data size")));
            },
        };
        let ghost tensor = Tensor {
            name: start.name@,
            shape: start.shape(),
            value_type: value_type.code(),
            offset: offset as nat,
            byte_len: byte_len as nat,
        };
        let mut name = String::new();
        std::mem::swap(&mut name, &mut self.name);
        self.names.insert(name);
        self.expected_offset = expected_offset;
        if let Some(name) = self.kept_name {
            if self.header_limit.is_none() {
                self.tensors.push(
                    TensorInfo {
                        name,
                        dimensions: self.dimensions,
                        dimension_count: self.dimension_count,
                        value_type,
                        offset,
                        byte_len,
                    },
                );
            }
        }
        self.rows_done = self.rows_done + 1;
        self.rows = Ghost(self.rows@.push(tensor));
        let ghost before = *self;
        proof {
            assert forall|name: Seq<char>| #[trigger]
                before.names@.contains(name) <==> grammar::has_name(before.rows@, name) by {
                grammar::lemma_has_name_push(start.rows@, tensor, name);
            }
            assert(forall|file: Seq<u8>| #[trigger]
                start.matches(file, chunk@) ==> start.outcome(file) == before.rest_of_table(file));
        }
        self.next_row()
    }

    /// A field that cannot be reached is what is wrong with the file.
    proof fn lemma_unreachable(self, file: Seq<u8>, fault: Fault)
        requires
            self.well_formed(),
            !(self.stage is Finished),
            file.len() == self.file_size,
            grammar::reach_fault(
                self.rules(),
                self.file_size as nat,
                self.position as nat,
                self.field_bytes(),
            ) == Some(fault),
        ensures
            self.outcome(file) == Err::<Document, Failure>(
                Failure { offset: self.position as nat, fault },
            ),
    {
        let failure = Failure { offset: self.position as nat, fault };
        assert(grammar::bytes_at(
            self.rules(),
            file,
            self.position as nat,
            self.field_bytes(),
        ) == Err::<Located<Seq<u8>>, Failure>(failure)) by {
            reveal(grammar::bytes_at);
        }
        let rules = self.rules();
        let position = self.position as nat;
        match self.stage {
            Stage::Magic => {},
            Stage::Version => {
                reveal(grammar::document_version_at);
            },
            Stage::TensorCount => {
                reveal(grammar::document_tensors_at);
                reveal(grammar::count_at);
                reveal(grammar::number_at);
            },
            Stage::EntryCount => {
                reveal(grammar::document_entries_at);
                reveal(grammar::count_at);
                reveal(grammar::number_at);
            },
            Stage::KeyLength => {
                reveal(grammar::document_with_entries);
                reveal(grammar::entry_with_key);
                reveal(grammar::text_at);
                reveal(grammar::count_at);
                reveal(grammar::number_at);
            },
            Stage::KeyBytes(_) => {
                reveal(grammar::document_with_entries);
                reveal(grammar::entry_with_key);
                reveal(grammar::characters_at);
            },
            Stage::NameLength => {
                reveal(grammar::document_with_tensors);
                reveal(grammar::tensor_with_name);
                reveal(grammar::text_at);
                reveal(grammar::count_at);
                reveal(grammar::number_at);
            },
            Stage::NameBytes(_) => {
                reveal(grammar::document_with_tensors);
                reveal(grammar::tensor_with_name);
                reveal(grammar::characters_at);
            },
            Stage::DimensionCount => {
                reveal(grammar::document_with_tensors);
                reveal(grammar::tensor_shape_at);
                reveal(grammar::number_at);
            },
            Stage::Dimension | Stage::TensorType => {
                reveal(grammar::document_with_tensors);
                reveal(grammar::tensor_with_shape);
                reveal(grammar::number_at);
            },
            Stage::TensorOffset(_) => {
                reveal(grammar::document_with_tensors);
                reveal(grammar::tensor_with_type);
                reveal(grammar::number_at);
            },
            _ => {
                reveal(grammar::document_with_entries);
                reveal(grammar::entry_with_value);
                reveal(grammar::value_at);
                reveal(grammar::array_at);
                reveal(grammar::array_length_at);
                reveal(grammar::scalar_at);
                reveal(grammar::fixed_array_at);
                reveal(grammar::text_at);
                reveal(grammar::characters_at);
                reveal(grammar::count_at);
                reveal(grammar::number_at);
            },
        }
    }

    /// The number of bytes that the field under way occupies.
    fn field_length(&self) -> (length: usize)
        ensures
            length == self.field_bytes(),
    {
        match self.stage {
            Stage::Magic | Stage::Version | Stage::ValueType | Stage::ItemType
            | Stage::DimensionCount | Stage::TensorType => 4,
            Stage::TensorCount | Stage::EntryCount | Stage::KeyLength | Stage::ItemCount(_)
            | Stage::ItemLength(_) | Stage::NameLength | Stage::Dimension
            | Stage::TensorOffset(_) => 8,
            Stage::Scalar(value_type) => match value_type.fixed_width() {
                Some(width) => width,
                None => 8,
            },
            Stage::KeyBytes(length) => length,
            Stage::TextBytes(length) => length,
            Stage::ItemBytes { length, .. } => length,
            Stage::NameBytes(length) => length,
            Stage::FixedItems { length, .. } => length,
            Stage::Flags { remaining, .. } => remaining,
            Stage::Finished => 0,
        }
    }

    /// The next bytes may be handed over, `length` in number.
    pub(crate) open spec fn awaits(self, length: nat) -> bool {
        &&& self.well_formed()
        &&& !(self.stage is Finished)
        &&& self.reaches(self.field_bytes())
        &&& length == match self.stage {
            Stage::Flags { remaining, .. } => grammar::smaller(
                remaining as nat,
                FLAG_CHUNK_BYTES as nat,
            ),
            _ => self.field_bytes(),
        }
    }

    /// Says what the parser wants next.
    pub(crate) fn request(&self) -> (result: Result<Request, Error>)
        requires
            self.well_formed(),
        ensures
            match result {
                Ok(Request::Finished) => self.stage is Finished,
                Ok(Request::Skip(length)) => {
                    &&& self.stage is FixedItems
                    &&& !self.keeps()
                    &&& length == self.field_bytes()
                    &&& self.reaches(length as nat)
                },
                Ok(Request::Flags(length)) => self.stage is Flags && self.awaits(length as nat),
                Ok(Request::Field(length)) => {
                    &&& !(self.stage is Flags)
                    &&& self.stage is FixedItems ==> self.keeps()
                    &&& self.awaits(length as nat)
                },
                Err(error) => {
                    &&& !self.reaches(self.field_bytes())
                    &&& forall|file: Seq<u8>|
                        file.len() == self.file_size ==> #[trigger] self.outcome(file)
                            == Err::<Document, Failure>(error@)
                },
            },
    {
        if let Stage::Finished = self.stage {
            return Ok(Request::Finished);
        }
        let length: usize = self.field_length();
        if let Some(kind) = self.reach(length) {
            let error = self.error(kind);
            proof {
                assert forall|file: Seq<u8>| file.len() == self.file_size implies #[trigger] self.outcome(
                    file,
                ) == Err::<Document, Failure>(error@) by {
                    self.lemma_unreachable(file, error@.fault);
                }
            }
            return Err(error);
        }
        match self.stage {
            Stage::FixedItems { .. } if self.header_limit.is_some() => Ok(Request::Skip(length)),
            Stage::Flags { .. } => {
                if length > FLAG_CHUNK_BYTES {
                    Ok(Request::Flags(FLAG_CHUNK_BYTES))
                } else {
                    Ok(Request::Flags(length))
                }
            },
            _ => Ok(Request::Field(length)),
        }
    }

    /// Goes on with the bytes that were asked for. `kept` are the same bytes
    /// in a file that is held in memory.
    pub(crate) fn step(&mut self, chunk: &[u8], kept: Option<&'a [u8]>) -> (result: Result<
        (),
        Error,
    >)
        requires
            old(self).awaits(chunk@.len()),
            old(self).keeps() <==> kept is Some,
            kept matches Some(kept) ==> kept@ == chunk@,
        ensures
            old(self).continues(*final(self), result, chunk@),
    {
        match self.stage {
            Stage::Magic => self.step_magic(chunk),
            Stage::Version => self.step_version(chunk),
            Stage::TensorCount => self.step_tensor_count(chunk),
            Stage::EntryCount => self.step_entry_count(chunk),
            Stage::KeyLength => self.step_key_length(chunk),
            Stage::KeyBytes(_) => self.step_key_bytes(chunk, kept),
            Stage::ValueType => self.step_value_type(chunk),
            Stage::Scalar(_) => self.step_scalar(chunk),
            Stage::TextBytes(_) => self.step_text(chunk, kept),
            Stage::ItemType => self.step_item_type(chunk),
            Stage::ItemCount(_) => self.step_item_count(chunk),
            Stage::ItemLength(_) => self.step_item_length(chunk),
            Stage::ItemBytes { .. } => self.step_item_bytes(chunk, kept),
            Stage::FixedItems { .. } => self.step_fixed_items(chunk, kept),
            Stage::Flags { .. } => self.step_flags(chunk),
            Stage::NameLength => self.step_name_length(chunk),
            Stage::NameBytes(_) => self.step_name_bytes(chunk, kept),
            Stage::DimensionCount => self.step_dimension_count(chunk),
            Stage::Dimension => self.step_dimension(chunk),
            Stage::TensorType => self.step_tensor_type(chunk),
            Stage::TensorOffset(_) => self.step_tensor_offset(chunk),
            Stage::Finished => Ok(()),
        }
    }

    /// A parser at the start of a file of `file_size` bytes.
    pub(crate) fn new(limits: Limits, header_limit: Option<u64>, file_size: u64) -> (parser: Self)
        requires
            header_limit is None ==> file_size <= usize::MAX,
        ensures
            parser.well_formed(),
            parser.stage is Magic,
            parser.limits == limits,
            parser.header_limit == header_limit,
            parser.file_size == file_size,
            forall|file: Seq<u8>| #[trigger]
                parser.outcome(file) == grammar::document(
                    (Rules { limits, header_limit }),
                    file,
                ),
    {
        Parser {
            limits,
            header_limit,
            file_size,
            position: 0,
            stage: Stage::Magic,
            version: 0,
            tensor_count: 0,
            entry_count: 0,
            entries: Ghost(Seq::empty()),
            entries_done: 0,
            metadata: Vec::new(),
            keys: StringHashSet::new(),
            alignment: DEFAULT_ALIGNMENT,
            key: String::new(),
            kept_key: None,
            texts: Ghost(Seq::empty()),
            texts_done: 0,
            kept_texts: Vec::new(),
            rows: Ghost(Seq::empty()),
            rows_done: 0,
            tensors: Vec::new(),
            names: StringHashSet::new(),
            expected_offset: 0,
            name: String::new(),
            kept_name: None,
            dimensions: [1, 1, 1, 1],
            dimension_count: 0,
            dimensions_done: 0,
            element_count: 1,
            data_offset: 0,
        }
    }
}

/// Finds the first byte that is no boolean.
fn find_invalid_flag(bytes: &[u8]) -> (found: Option<u8>)
    ensures
        found == grammar::invalid_flag(bytes@),
{
    let mut i: usize = 0;
    assert(bytes@.skip(0) =~= bytes@);
    while i < bytes.len()
        invariant
            i <= bytes@.len(),
            grammar::invalid_flag(bytes@) == grammar::invalid_flag(bytes@.skip(i as int)),
        decreases bytes@.len() - i,
    {
        assert(bytes@.skip(i as int).drop_first() =~= bytes@.skip(i + 1));
        if bytes[i] > 1 {
            return Some(bytes[i]);
        }
        i += 1;
    }
    None
}

/// Decodes a text, and once more as part of a file that is kept.
fn decode_pair<'a: 'b, 'b>(chunk: &'b [u8], kept: Option<&'a [u8]>) -> (texts: Option<
    (&'b str, Option<&'a str>),
>)
    requires
        kept matches Some(kept) ==> kept@ == chunk@,
    ensures
        match texts {
            Some((text, kept_text)) => {
                &&& utf8::valid_utf8(chunk@)
                &&& text@ == utf8::decode_utf8(chunk@)
                &&& match kept {
                    Some(_) => kept_text matches Some(kept_text) && kept_text@ == text@,
                    None => kept_text is None,
                }
            },
            None => !utf8::valid_utf8(chunk@),
        },
{
    match kept {
        Some(bytes) => match text::decode_text(bytes) {
            Some(text) => {
                proof {
                    utf8::encode_utf8_decode_utf8(text@);
                }
                Some((text, Some(text)))
            },
            None => None,
        },
        None => match text::decode_text(chunk) {
            Some(text) => {
                proof {
                    utf8::encode_utf8_decode_utf8(text@);
                }
                Some((text, None))
            },
            None => None,
        },
    }
}

/// A power of two is positive.
proof fn lemma_pow2_positive(alignment: u32)
    requires
        power2::is_pow2(alignment as int),
    ensures
        alignment > 0,
{
    reveal(power2::is_pow2);
}

/// Tests for a power of two.
fn is_power_of_two(value: u32) -> (answer: bool)
    ensures
        answer == power2::is_pow2(value as int),
{
    proof {
        reveal(power2::is_pow2);
    }
    if value == 0 {
        return false;
    }
    let mut rest: u32 = value;
    while rest % 2 == 0
        invariant
            rest > 0,
            power2::is_pow2(value as int) == power2::is_pow2(rest as int),
        decreases rest,
    {
        proof {
            reveal(power2::is_pow2);
        }
        rest = rest / 2;
    }
    rest == 1
}

/// Tests a metadata key for non-empty segments separated by periods.
fn is_valid_metadata_key(key: &str) -> (valid: bool)
    ensures
        valid == grammar::is_metadata_key(key@),
{
    let chars = text::characters(key);
    if chars.len() == 0 {
        return false;
    }
    let mut segment_open: bool = false;
    let mut i: usize = 0;
    while i < chars.len()
        invariant
            i <= chars@.len(),
            chars@ == key@,
            segment_open == (i > 0 && grammar::is_key_character(key@[i - 1])),
            i > 0 ==> segment_open || key@[i - 1] == '.',
            forall|j: int|
                0 <= j < i ==> grammar::is_key_character(#[trigger] key@[j]) || {
                    &&& key@[j] == '.'
                    &&& 0 < j
                    &&& grammar::is_key_character(key@[j - 1])
                    &&& j + 1 < i ==> grammar::is_key_character(key@[j + 1])
                },
        decreases chars@.len() - i,
    {
        let c = chars[i];
        if ('a' <= c && c <= 'z') || ('0' <= c && c <= '9') || c == '_' {
            segment_open = true;
        } else if c == '.' && segment_open {
            segment_open = false;
        } else {
            assert(!grammar::is_key_character(key@[i as int]));
            return false;
        }
        i += 1;
    }
    assert(!segment_open ==> !grammar::is_key_character(key@[key@.len() - 1]));
    segment_open
}

/// Tests a text for a NUL byte.
fn contains_nul(text: &str) -> (found: bool)
    ensures
        found == utf8::encode_utf8(text@).contains(0),
{
    let bytes = text.as_bytes();
    let mut i: usize = 0;
    while i < bytes.len()
        invariant
            i <= bytes@.len(),
            bytes@ == utf8::encode_utf8(text@),
            forall|j: int| 0 <= j < i ==> bytes@[j] != 0,
        decreases bytes@.len() - i,
    {
        if bytes[i] == 0 {
            assert(utf8::encode_utf8(text@)[i as int] == 0);
            return true;
        }
        i += 1;
    }
    false
}

/// Rounds up to a multiple of the alignment, if the sum of both does not pass
/// `limit`.
fn align_up(value: u64, alignment: u64, limit: u64) -> (aligned: Option<u64>)
    requires
        0 < alignment,
    ensures
        match aligned {
            Some(aligned) => value + alignment - 1 <= limit && aligned == grammar::align_up(
                value as nat,
                alignment as nat,
            ) && value <= aligned <= limit,
            None => value + alignment - 1 > limit,
        },
{
    let mask: u64 = alignment - 1;
    match value.checked_add(mask) {
        Some(sum) => {
            if sum > limit {
                return None;
            }
            let rest: u64 = sum % alignment;
            proof {
                lemma_align_up(value as int, alignment as int);
            }
            Some(sum - rest)
        },
        None => None,
    }
}

proof fn lemma_align_up(value: int, alignment: int)
    requires
        value >= 0,
        alignment > 0,
    ensures
        (value + alignment - 1) - (value + alignment - 1) % alignment == grammar::align_up(
            value as nat,
            alignment as nat,
        ),
        grammar::align_up(value as nat, alignment as nat) >= value,
{
    let quotient = value / alignment;
    let rest = value % alignment;
    vstd::arithmetic::div_mod::lemma_fundamental_div_mod(value, alignment);
    vstd::arithmetic::mul::lemma_mul_is_commutative(alignment, quotient);
    if rest == 0 {
        vstd::arithmetic::div_mod::lemma_fundamental_div_mod_converse(
            value + alignment - 1,
            alignment,
            quotient,
            alignment - 1,
        );
    } else {
        assert((quotient + 1) * alignment == quotient * alignment + alignment) by (nonlinear_arith);
        vstd::arithmetic::div_mod::lemma_fundamental_div_mod_converse(
            value + alignment - 1,
            alignment,
            quotient + 1,
            rest - 1,
        );
    }
}

} // verus!
