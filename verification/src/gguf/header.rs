//! Validation of a GGUF file through a seekable reader.
//!
//! [`HeaderReader`] decides and its driver acts: the driver performs the
//! action asked for and reports what came of it.

use std::ops::Range;

use vstd::prelude::*;

use crate::gguf::error::{Error, ErrorKind, Failure, Fault, ReadError};
use crate::gguf::grammar;
use crate::gguf::grammar::{Document, Rules};
use crate::gguf::limits::HeaderLimits;
use crate::gguf::parser::{Parser, Request, Stage, FLAG_CHUNK_BYTES};

verus! {

/// The validated layout of a file. No metadata value is retained, and neither
/// padding nor tensor data is read.
#[derive(Debug, Clone, Copy, PartialEq, Eq, Structural)]
pub struct GgufHeader {
    version: u32,
    alignment: u32,
    header_size: u64,
    data_offset: u64,
    data_size: u64,
    file_size: u64,
    metadata_count: u64,
    tensor_count: u64,
}

/// The layout of a file, as a mathematical value.
#[verifier::ext_equal]
pub struct Header {
    pub version: u32,
    pub alignment: u32,
    pub header_size: nat,
    pub data_offset: nat,
    pub data_size: nat,
    pub file_size: nat,
    pub metadata_count: nat,
    pub tensor_count: nat,
}

/// The layout of a file of `size` bytes with the given contents.
pub open spec fn header_of(document: Document, size: nat) -> Header {
    Header {
        version: document.version,
        alignment: document.alignment,
        header_size: document.header_size,
        data_offset: document.data_offset,
        data_size: document.data_size,
        file_size: size,
        metadata_count: document.metadata.len(),
        tensor_count: document.tensors.len(),
    }
}

impl View for GgufHeader {
    type V = Header;

    closed spec fn view(&self) -> Header {
        Header {
            version: self.version,
            alignment: self.alignment,
            header_size: self.header_size as nat,
            data_offset: self.data_offset as nat,
            data_size: self.data_size as nat,
            file_size: self.file_size as nat,
            metadata_count: self.metadata_count as nat,
            tensor_count: self.tensor_count as nat,
        }
    }
}

impl GgufHeader {
    #[verifier::type_invariant]
    spec fn well_formed(self) -> bool {
        &&& self.header_size <= self.data_offset
        &&& self.data_offset + self.data_size <= self.file_size
    }

    /// Returns the version of the format.
    pub fn version(self) -> (version: u32)
        ensures
            version == self@.version,
    {
        self.version
    }

    /// Returns the alignment of tensor data.
    pub fn alignment(self) -> (alignment: u32)
        ensures
            alignment == self@.alignment,
    {
        self.alignment
    }

    /// Number of bytes occupied by the header and tables, before alignment padding.
    pub fn header_size(self) -> (size: u64)
        ensures
            size == self@.header_size,
    {
        self.header_size
    }

    /// Returns the position of the tensor data.
    pub fn data_offset(self) -> (offset: u64)
        ensures
            offset == self@.data_offset,
    {
        self.data_offset
    }

    /// Returns the number of bytes of tensor data, padding included.
    pub fn data_size(self) -> (size: u64)
        ensures
            size == self@.data_size,
    {
        self.data_size
    }

    /// Returns the length of the file.
    pub fn file_size(self) -> (size: u64)
        ensures
            size == self@.file_size,
    {
        self.file_size
    }

    /// Returns the number of metadata entries.
    pub fn metadata_count(self) -> (count: u64)
        ensures
            count == self@.metadata_count,
    {
        self.metadata_count
    }

    /// Returns the number of tensors.
    pub fn tensor_count(self) -> (count: u64)
        ensures
            count == self@.tensor_count,
    {
        self.tensor_count
    }

    /// Returns the absolute file range of the tensor data.
    pub fn tensor_data_range(self) -> (range: Range<u64>)
        ensures
            range.start == self@.data_offset,
            range.end == self@.data_offset + self@.data_size,
            self@.header_size <= range.start,
            range.end <= self@.file_size,
    {
        proof {
            use_type_invariant(&self);
        }
        self.data_offset..self.data_offset + self.data_size
    }
}

/// What a reader is to do next.
#[derive(Debug, Clone, Copy, PartialEq, Eq, Structural)]
pub enum Action {
    /// Seek to the end, and report the position there.
    FindEnd,
    /// Seek to a position.
    SeekTo(u64),
    /// Read exactly so many bytes.
    Read(usize),
    /// Nothing: the file is valid.
    Done,
}

/// What came of an action.
#[derive(Debug)]
pub enum Event<'b> {
    /// The end was found there.
    End(u64),
    /// The position was reached.
    Moved,
    /// These bytes were read.
    Bytes(&'b [u8]),
    /// The action failed.
    Failed(std::io::Error),
    /// There was no room for the bytes to read.
    OutOfMemory,
}

/// How far the validation has come.
#[derive(Debug, Clone, Copy, PartialEq, Eq, Structural)]
pub enum Phase {
    FindLength,
    Rewind,
    Parse,
    Recheck,
    Position,
    Done,
}

/// The rules under which a file is validated piece by piece.
pub open spec fn streaming_rules(limits: HeaderLimits) -> Rules {
    Rules { limits: limits.format, header_limit: Some(limits.max_header_bytes) }
}

/// The validation of a file through a seekable reader.
pub struct HeaderReader {
    limits: HeaderLimits,
    phase: Phase,
    parser: Parser<'static>,
}

impl HeaderReader {
    /// How far the validation has come.
    pub closed spec fn spec_phase(&self) -> Phase {
        self.phase
    }

    /// The limits of the validation.
    pub closed spec fn spec_limits(&self) -> HeaderLimits {
        self.limits
    }

    /// The length of the file, once it was found.
    pub closed spec fn spec_file_size(&self) -> u64 {
        self.parser.file_size
    }

    /// The number of bytes that were read or passed over.
    pub closed spec fn spec_position(&self) -> nat {
        self.parser.position as nat
    }

    /// What `file` comes to, if what was read of it so far stands in it.
    pub closed spec fn verdict(&self, file: Seq<u8>) -> Result<Document, Failure> {
        self.parser.outcome(file)
    }

    /// The contents of the file, once it was read.
    pub closed spec fn found(&self) -> Document {
        self.parser.document()
    }

    pub closed spec fn well_formed(&self) -> bool {
        &&& self.parser.well_formed()
        &&& self.parser.limits == self.limits.format
        &&& self.parser.header_limit == Some(self.limits.max_header_bytes)
        &&& match self.phase {
            Phase::FindLength | Phase::Rewind => {
                &&& self.parser.stage is Magic
            },
            Phase::Parse => !(self.parser.stage is Finished),
            Phase::Recheck | Phase::Position | Phase::Done => {
                &&& self.parser.stage is Finished
            },
        }
    }

    /// What the reader is to do now.
    pub open spec fn spec_action(&self) -> Action {
        match self.spec_phase() {
            Phase::FindLength => Action::FindEnd,
            Phase::Rewind => Action::SeekTo(0),
            Phase::Parse => self.next_field(),
            Phase::Recheck => Action::FindEnd,
            Phase::Position => Action::SeekTo(self.found().data_offset as u64),
            Phase::Done => Action::Done,
        }
    }

    /// How the reader comes by the field that is parsed next.
    pub closed spec fn next_field(&self) -> Action {
        if self.skips() {
            Action::SeekTo((self.parser.position + self.parser.field_bytes()) as u64)
        } else {
            Action::Read(
                (match self.parser.stage {
                    Stage::Flags { remaining, .. } => grammar::smaller(
                        remaining as nat,
                        FLAG_CHUNK_BYTES as nat,
                    ),
                    _ => self.parser.field_bytes(),
                }) as usize,
            )
        }
    }

    /// The position behind the field that is parsed next.
    pub open spec fn field_end(&self) -> nat {
        match self.spec_action() {
            Action::Read(length) => self.spec_position() + length as nat,
            Action::SeekTo(position) => position as nat,
            _ => self.spec_position(),
        }
    }

    /// Whether the field that is parsed next may occupy no byte at all.
    pub closed spec fn may_be_empty(&self) -> bool {
        self.parser.may_be_empty()
    }

    /// Whether the field that is parsed next holds items of a boolean array.
    pub closed spec fn reads_booleans(&self) -> bool {
        self.parser.stage is Flags
    }

    closed spec fn skips(&self) -> bool {
        self.parser.stage is FixedItems
    }

    /// Whether the action may be performed: what it asks for lies in the file.
    pub closed spec fn ready(&self) -> bool {
        self.phase is Parse ==> self.parser.reaches(self.parser.field_bytes())
    }

    /// The name of the operation that is under way.
    pub open spec fn spec_operation(&self) -> Seq<char> {
        match self.spec_phase() {
            Phase::FindLength => "determining the initial file length"@,
            Phase::Rewind => "seeking to the file start"@,
            Phase::Parse => if self.spec_action() is SeekTo {
                "skipping fixed-width metadata values"@
            } else if self.reads_booleans() {
                "reading boolean metadata values"@
            } else {
                "reading header bytes"@
            },
            Phase::Recheck => "rechecking the file length"@,
            Phase::Position => "positioning at tensor data"@,
            Phase::Done => "reading header bytes"@,
        }
    }

    /// The position at which the operation under way takes place.
    pub open spec fn spec_operation_offset(&self) -> Option<u64> {
        match self.spec_phase() {
            Phase::FindLength | Phase::Recheck => None,
            Phase::Rewind | Phase::Position => Some(self.spec_action()->SeekTo_0),
            Phase::Parse => match self.spec_action() {
                Action::SeekTo(end) => Some(end),
                _ => Some(self.spec_position() as u64),
            },
            Phase::Done => Some(self.spec_position() as u64),
        }
    }

    /// `event` is an answer to the action that is under way.
    pub open spec fn answers(&self, event: Event<'_>) -> bool {
        match event {
            Event::End(_) => self.spec_action() is FindEnd,
            Event::Moved => self.spec_action() is SeekTo,
            Event::Bytes(bytes) => self.spec_action() == Action::Read(bytes@.len() as usize),
            Event::Failed(_) => true,
            Event::OutOfMemory => self.spec_action() is Read,
        }
    }

    /// `bytes` stand in `file` where the reader goes on.
    pub open spec fn reads(&self, file: Seq<u8>, bytes: Seq<u8>) -> bool {
        &&& file.len() == self.spec_file_size()
        &&& self.spec_position() + bytes.len() <= file.len()
        &&& file.subrange(
            self.spec_position() as int,
            (self.spec_position() + bytes.len()) as int,
        ) == bytes
    }

    /// Each byte of a boolean array that the reader asks for is a zero or a one
    /// in a file that is valid.
    pub proof fn law_booleans_are_bits(&self, file: Seq<u8>, at: int)
        requires
            self.well_formed(),
            self.ready(),
            self.spec_phase() is Parse,
            self.reads_booleans(),
            file.len() == self.spec_file_size(),
            self.spec_position() <= at < self.field_end(),
            file[at] > 1,
        ensures
            self.spec_action() is Read,
            self.verdict(file) matches Err(failure) && failure.fault is InvalidBoolean,
    {
        let remaining = self.parser.field_bytes();
        let start = self.parser.position as int;
        let bytes = file.subrange(start, start + remaining);
        let before = bytes.take(at - start);
        let rest = bytes.skip(at - start);
        assert(bytes =~= before + rest);
        grammar::lemma_invalid_flag_concat(before, rest);
        assert(rest[0] == file[at]);
        reveal(grammar::bytes_at);
        reveal(grammar::entry_with_value);
        reveal(grammar::document_with_entries);
    }

    /// A reader that parses reads or passes over a field, inside the file and
    /// inside the header limit.
    pub proof fn law_actions_stay_within_bounds(&self)
        requires
            self.well_formed(),
            self.ready(),
            self.spec_phase() is Parse,
        ensures
            self.spec_action() is Read || self.spec_action() is SeekTo,
            self.spec_position() <= self.field_end(),
            self.field_end() <= self.spec_file_size(),
            self.field_end() <= self.spec_limits().max_header_bytes,
    {
    }

    /// Starts the validation of a file.
    pub fn new(limits: HeaderLimits) -> (reader: Self)
        ensures
            reader.well_formed(),
            reader.spec_limits() == limits,
            reader.spec_phase() == Phase::FindLength,
            reader.ready(),
    {
        HeaderReader {
            limits,
            phase: Phase::FindLength,
            parser: Parser::new(limits.format, Some(limits.max_header_bytes), 0),
        }
    }

    /// The action may not be performed, and `error` says why.
    pub open spec fn barred(&self, error: ReadError) -> bool {
        &&& self.spec_phase() is Parse
        &&& !self.ready()
        &&& error matches ReadError::Parse(error) && forall|file: Seq<u8>|
            file.len() == self.spec_file_size() ==> #[trigger] self.verdict(file) == Err::<
                Document,
                Failure,
            >(error@)
    }

    /// Says what the reader is to do now, or why the file is not valid.
    pub fn action(&self) -> (result: Result<Action, ReadError>)
        requires
            self.well_formed(),
        ensures
            match result {
                Ok(action) => self.ready() && action == self.spec_action(),
                Err(error) => self.barred(error),
            },
    {
        match self.phase {
            Phase::FindLength => Ok(Action::FindEnd),
            Phase::Rewind => Ok(Action::SeekTo(0)),
            Phase::Parse => match self.parser.request() {
                Err(error) => {
                    Err(ReadError::Parse(error))
                },
                Ok(Request::Skip(length)) => Ok(
                    Action::SeekTo(self.parser.position as u64 + length as u64),
                ),
                Ok(Request::Flags(length)) => Ok(Action::Read(length)),
                Ok(Request::Field(length)) => Ok(Action::Read(length)),
                Ok(Request::Finished) => Ok(Action::Done),
            },
            Phase::Recheck => Ok(Action::FindEnd),
            Phase::Position => Ok(Action::SeekTo(self.parser.data_offset as u64)),
            Phase::Done => Ok(Action::Done),
        }
    }

    /// What is the same in every file while it is parsed: the reader goes on
    /// behind the field, and all that it has passed when it stops is the header.
    /// No two fields in a row are empty, so that it does stop.
    pub open spec fn keeps_on(&self, next: &Self) -> bool {
        &&& next.well_formed()
        &&& self.spec_phase() is Parse ==> {
            &&& self.spec_position() <= self.field_end()
            &&& next.spec_position() == self.field_end()
            &&& self.spec_position() < next.spec_position() || (self.may_be_empty()
                && !next.may_be_empty())
        }
        &&& next.spec_position() <= next.spec_file_size()
        &&& next.spec_limits() == self.spec_limits()
        &&& next.spec_file_size() == self.spec_file_size()
        &&& next.spec_phase() is Parse || next.spec_phase() is Recheck
        &&& next.spec_phase() is Recheck ==> {
            &&& next.ready()
            &&& next.spec_position() == next.found().header_size
            &&& forall|file: Seq<u8>| #[trigger]
                next.verdict(file) == Ok::<Document, Failure>(next.found())
        }
    }

    /// What comes of `event`: the reader goes on as `next`, or `result` says why
    /// it does not.
    pub open spec fn resumed(
        &self,
        event: Event<'_>,
        next: &Self,
        result: Result<(), ReadError>,
    ) -> bool {
        match event {
            Event::Failed(source) => result matches Err(
                ReadError::Io { operation, offset, source: cause },
            ) && operation@ == self.spec_operation() && offset
                == self.spec_operation_offset() && cause == source,
            Event::OutOfMemory => result matches Err(ReadError::Parse(error)) && error@ == (
            Failure {
                offset: self.spec_position(),
                fault: Fault::AllocationFailed("seekable-reader field"@),
            }),
            Event::End(length) => if self.spec_phase() is FindLength {
                &&& result is Ok
                &&& next.well_formed()
                &&& next.ready()
                &&& next.spec_limits() == self.spec_limits()
                &&& next.spec_phase() is Rewind
                &&& next.spec_file_size() == length
            } else if length == self.spec_file_size() {
                &&& result is Ok
                &&& next.well_formed()
                &&& next.ready()
                &&& next.spec_phase() is Position
                &&& next.found() == self.found()
                &&& next.found().data_offset <= u64::MAX
                &&& next.spec_position() == self.spec_position()
                &&& next.spec_file_size() == length
            } else {
                result matches Err(
                    ReadError::FileLengthChanged { expected, actual },
                ) && expected == self.spec_file_size() && actual == length
            },
            Event::Moved => match self.spec_phase() {
                Phase::Rewind => {
                    &&& result is Ok
                    &&& self.keeps_on(next)
                    &&& next.spec_phase() is Parse
                    &&& next.spec_position() == 0
                    &&& next.spec_action() == Action::Read(4)
                    &&& !next.reads_booleans()
                    &&& forall|file: Seq<u8>| #[trigger]
                        next.verdict(file) == grammar::document(
                            streaming_rules(self.spec_limits()),
                            file,
                        )
                },
                Phase::Parse => match result {
                    Ok(()) => {
                        &&& self.keeps_on(next)
                        &&& forall|file: Seq<u8>|
                            file.len() == self.spec_file_size() ==> self.verdict(file)
                                == #[trigger] next.verdict(file)
                    },
                    Err(error) => error matches ReadError::Parse(error) && forall|file: Seq<u8>|
                        file.len() == self.spec_file_size() ==> #[trigger] self.verdict(file)
                            == Err::<Document, Failure>(error@),
                },
                _ => {
                    &&& result is Ok
                    &&& next.well_formed()
                    &&& next.ready()
                    &&& next.spec_phase() is Done
                    &&& next.found() == self.found()
                    &&& next.spec_position() == self.spec_position()
                    &&& next.spec_file_size() == self.spec_file_size()
                },
            },
            Event::Bytes(bytes) => match result {
                Ok(()) => {
                    &&& self.keeps_on(next)
                    &&& next.spec_position() == self.spec_position() + bytes@.len()
                    &&& forall|file: Seq<u8>|
                        self.reads(file, bytes@) ==> self.verdict(file)
                            == #[trigger] next.verdict(file)
                },
                Err(error) => error matches ReadError::Parse(error) && forall|file: Seq<u8>|
                    #[trigger]
                    self.reads(file, bytes@) ==> self.verdict(file) == Err::<
                        Document,
                        Failure,
                    >(error@),
            },
        }
    }

    /// Goes on after the action under way.
    pub fn resume(&mut self, event: Event<'_>) -> (result: Result<(), ReadError>)
        requires
            old(self).well_formed(),
            old(self).ready(),
            old(self).answers(event),
        ensures
            old(self).resumed(event, final(self), result),
    {
        match event {
            Event::Failed(source) => {
                let (operation, offset) = self.operation();
                Err(ReadError::io(operation, offset, source))
            },
            Event::OutOfMemory => Err(
                ReadError::Parse(
                    Error::new(
                        self.parser.position,
                        ErrorKind::AllocationFailed("seekable-reader field"),
                    ),
                ),
            ),
            Event::End(length) => match self.phase {
                Phase::FindLength => {
                    self.parser = Parser::new(
                        self.limits.format,
                        Some(self.limits.max_header_bytes),
                        length,
                    );
                    self.phase = Phase::Rewind;
                    Ok(())
                },
                _ => {
                    if length != self.parser.file_size {
                        return Err(
                            ReadError::FileLengthChanged {
                                expected: self.parser.file_size,
                                actual: length,
                            },
                        );
                    }
                    self.phase = Phase::Position;
                    Ok(())
                },
            },
            Event::Moved => match self.phase {
                Phase::Rewind => {
                    self.phase = Phase::Parse;
                    Ok(())
                },
                Phase::Parse => {
                    let result = self.parser.skip();
                    self.conclude(result)
                },
                _ => {
                    self.phase = Phase::Done;
                    Ok(())
                },
            },
            Event::Bytes(bytes) => {
                let ghost before = self.parser;
                assert(bytes.len() == bytes@.len());
                assert(before.field_bytes() <= usize::MAX);
                let result = self.parser.step(bytes, None);
                proof {
                    assert forall|file: Seq<u8>| #[trigger]
                        old(self).reads(file, bytes@) implies before.matches(file, bytes@) by {}
                }
                self.conclude(result)
            },
        }
    }

    /// Turns the parser's answer into the reader's.
    fn conclude(&mut self, result: Result<(), Error>) -> (concluded: Result<(), ReadError>)
        ensures
            final(self).limits == old(self).limits,
            final(self).parser == old(self).parser,
            match result {
                Ok(()) => {
                    &&& concluded is Ok
                    &&& final(self).phase == if old(self).parser.stage is Finished {
                        Phase::Recheck
                    } else {
                        old(self).phase
                    }
                },
                Err(error) => {
                    &&& final(self).phase == old(self).phase
                    &&& concluded == Err::<(), ReadError>(ReadError::Parse(error))
                },
            },
    {
        match result {
            Ok(()) => {
                if let Stage::Finished = self.parser.stage {
                    self.phase = Phase::Recheck;
                }
                Ok(())
            },
            Err(error) => Err(ReadError::Parse(error)),
        }
    }

    /// The name of the operation under way, and the position at which it takes
    /// place.
    fn operation(&self) -> (operation: (&'static str, Option<u64>))
        requires
            self.well_formed(),
            self.ready(),
        ensures
            operation.0@ == self.spec_operation(),
            operation.1 == self.spec_operation_offset(),
    {
        let position: u64 = self.parser.position as u64;
        match self.phase {
            Phase::FindLength => ("determining the initial file length", None),
            Phase::Rewind => ("seeking to the file start", Some(0)),
            Phase::Parse => match self.parser.stage {
                Stage::Flags { .. } => (
                    "reading boolean metadata values",
                    Some(position),
                ),
                Stage::FixedItems { length, .. } => (
                    "skipping fixed-width metadata values",
                    Some(position + length as u64),
                ),
                _ => ("reading header bytes", Some(position)),
            },
            Phase::Recheck => ("rechecking the file length", None),
            Phase::Position => (
                "positioning at tensor data",
                Some(self.parser.data_offset as u64),
            ),
            Phase::Done => ("reading header bytes", Some(position)),
        }
    }

    /// Returns the layout of a file that was found valid.
    pub fn header(&self) -> (header: GgufHeader)
        requires
            self.well_formed(),
            self.spec_phase() is Done,
        ensures
            header@ == header_of(self.found(), self.spec_file_size() as nat),
    {
        GgufHeader {
            version: self.parser.version,
            alignment: self.parser.alignment,
            header_size: self.parser.position as u64,
            data_offset: self.parser.data_offset as u64,
            data_size: self.parser.expected_offset,
            file_size: self.parser.file_size,
            metadata_count: self.parser.entries_done as u64,
            tensor_count: self.parser.rows_done as u64,
        }
    }
}

/// A reader that parses went through these states, one field after the other.
pub open spec fn parses(states: Seq<HeaderReader>) -> bool {
    forall|i: int|
        0 <= i < states.len() - 1 ==> {
            &&& (#[trigger] states[i]).spec_phase() is Parse
            &&& states[i].keeps_on(&states[i + 1])
        }
}

/// Whatever a reader asked for or passed over on the way to a valid header lies
/// in that header: no byte at or past its end is read.
pub proof fn law_only_the_header_is_read(states: Seq<HeaderReader>, at: int)
    requires
        parses(states),
        0 <= at < states.len() - 1,
        states.last().spec_phase() is Recheck,
    ensures
        states[at].spec_position() <= states[at].field_end(),
        states[at].field_end() <= states.last().found().header_size,
    decreases states.len() - at,
{
    if at + 1 < states.len() - 1 {
        law_only_the_header_is_read(states, at + 1);
    }
}

} // verus!
