//! The bounds of read-only file mappings.

use vstd::prelude::*;
use vstd::string::*;

use crate::gguf::error as gguf_error;
use crate::text;

verus! {

/// Failure to create a bounded read-only mapping.
#[derive(Debug)]
#[non_exhaustive]
pub enum MapError {
    Io(std::io::Error),
    InvalidLimit,
    NotRegularFile,
    EmptyFile,
    FileTooLarge { size: u64, limit: u64 },
    AddressSpaceExceeded { size: u64 },
    MapLengthMismatch { expected: u64, actual: u64 },
    FileSizeChanged { expected: u64, actual: u64 },
}

/// The text of an error whose source, if it has one, renders as `source`.
pub open spec fn map_error_text(error: MapError, source: Seq<char>) -> Seq<char> {
    match error {
        MapError::Io(_) => source,
        MapError::InvalidLimit => "mapping byte limit must be greater than zero"@,
        MapError::NotRegularFile => "mapping source is not a regular file"@,
        MapError::EmptyFile => "cannot memory-map an empty file"@,
        MapError::FileTooLarge { size, limit } => "file size "@ + text::decimal(size as nat)
            + " exceeds mapping limit "@ + text::decimal(limit as nat),
        MapError::AddressSpaceExceeded { size } => "file size "@ + text::decimal(size as nat)
            + " does not fit the host address space"@,
        MapError::MapLengthMismatch { expected, actual } => "mapped length "@ + text::decimal(
            actual as nat,
        ) + " does not match the expected file length "@ + text::decimal(expected as nat),
        MapError::FileSizeChanged { expected, actual } => "file length changed from "@
            + text::decimal(expected as nat) + " to "@ + text::decimal(actual as nat)
            + " bytes while mapping"@,
    }
}

impl MapError {
    /// Describes this error.
    pub fn message(&self) -> (text: String)
        ensures
            !(self is Io) ==> text@ == map_error_text(*self, seq![]),
    {
        if let MapError::Io(error) = self {
            return gguf_error::io_error_text(error);
        }
        let mut text = String::new();
        match self {
            MapError::Io(_) => {},
            MapError::InvalidLimit => text.append("mapping byte limit must be greater than zero"),
            MapError::NotRegularFile => text.append("mapping source is not a regular file"),
            MapError::EmptyFile => text.append("cannot memory-map an empty file"),
            MapError::FileTooLarge { size, limit } => {
                text.append("file size ");
                text::push_decimal(&mut text, *size);
                text.append(" exceeds mapping limit ");
                text::push_decimal(&mut text, *limit);
            },
            MapError::AddressSpaceExceeded { size } => {
                text.append("file size ");
                text::push_decimal(&mut text, *size);
                text.append(" does not fit the host address space");
            },
            MapError::MapLengthMismatch { expected, actual } => {
                text.append("mapped length ");
                text::push_decimal(&mut text, *actual);
                text.append(" does not match the expected file length ");
                text::push_decimal(&mut text, *expected);
            },
            MapError::FileSizeChanged { expected, actual } => {
                text.append("file length changed from ");
                text::push_decimal(&mut text, *expected);
                text.append(" to ");
                text::push_decimal(&mut text, *actual);
                text.append(" bytes while mapping");
            },
        }
        assert(text@ =~= map_error_text(*self, seq![]));
        text
    }
}

impl vstd::std_specs::convert::FromSpecImpl<std::io::Error> for MapError {
    open spec fn obeys_from_spec() -> bool {
        true
    }

    open spec fn from_spec(error: std::io::Error) -> Self {
        MapError::Io(error)
    }
}

impl From<std::io::Error> for MapError {
    fn from(error: std::io::Error) -> (wrapped: Self) {
        MapError::Io(error)
    }
}

/// Checks the limit of a mapping, before the file is opened.
pub fn check_limit(max_bytes: u64) -> (result: Result<(), MapError>)
    ensures
        match result {
            Ok(()) => max_bytes > 0,
            Err(error) => max_bytes == 0 && error == MapError::InvalidLimit,
        },
{
    if max_bytes == 0 {
        Err(MapError::InvalidLimit)
    } else {
        Ok(())
    }
}

/// Why a file cannot be mapped.
pub open spec fn file_fault(is_file: bool, file_len: u64, max_bytes: u64) -> Option<MapError> {
    if !is_file {
        Some(MapError::NotRegularFile)
    } else if file_len == 0 {
        Some(MapError::EmptyFile)
    } else if file_len > max_bytes {
        Some(MapError::FileTooLarge { size: file_len, limit: max_bytes })
    } else if file_len > usize::MAX {
        Some(MapError::AddressSpaceExceeded { size: file_len })
    } else {
        None
    }
}

/// A file that is mapped is a regular one, holds something, and is within the
/// limit.
pub proof fn law_mapped_files_are_within_their_limit(is_file: bool, file_len: u64, max_bytes: u64)
    ensures
        file_fault(is_file, file_len, max_bytes) is None ==> {
            &&& is_file
            &&& 0 < file_len <= max_bytes
            &&& file_len <= usize::MAX
        },
{
}

/// Checks an open file, before address space is reserved for it, and returns
/// the length to map.
pub fn check_file(is_file: bool, file_len: u64, max_bytes: u64) -> (result: Result<
    usize,
    MapError,
>)
    ensures
        match result {
            Ok(length) => {
                &&& file_fault(is_file, file_len, max_bytes) is None
                &&& length == file_len
            },
            Err(error) => file_fault(is_file, file_len, max_bytes) == Some(error),
        },
{
    if !is_file {
        return Err(MapError::NotRegularFile);
    }
    if file_len == 0 {
        return Err(MapError::EmptyFile);
    }
    if file_len > max_bytes {
        return Err(MapError::FileTooLarge { size: file_len, limit: max_bytes });
    }
    if file_len > usize::MAX as u64 {
        return Err(MapError::AddressSpaceExceeded { size: file_len });
    }
    Ok(file_len as usize)
}

/// Checks the length of a mapping.
pub fn check_mapped(file_len: u64, mapped_len: usize) -> (result: Result<(), MapError>)
    ensures
        match result {
            Ok(()) => mapped_len == file_len,
            Err(error) => mapped_len != file_len && error == (MapError::MapLengthMismatch {
                expected: file_len,
                actual: mapped_len as u64,
            }),
        },
{
    if mapped_len as u64 != file_len {
        return Err(
            MapError::MapLengthMismatch { expected: file_len, actual: mapped_len as u64 },
        );
    }
    Ok(())
}

/// Checks that the length of a file is the same behind the mapping as before.
pub fn check_unchanged(file_len: u64, current_len: u64) -> (result: Result<(), MapError>)
    ensures
        match result {
            Ok(()) => current_len == file_len,
            Err(error) => current_len != file_len && error == (MapError::FileSizeChanged {
                expected: file_len,
                actual: current_len,
            }),
        },
{
    if current_len != file_len {
        return Err(MapError::FileSizeChanged { expected: file_len, actual: current_len });
    }
    Ok(())
}

/// The bytes of a mapped file.
#[derive(Debug, Clone, Copy)]
pub struct MappedFile<'a> {
    map: &'a [u8],
}

impl<'a> View for MappedFile<'a> {
    type V = Seq<u8>;

    closed spec fn view(&self) -> Seq<u8> {
        self.map@
    }
}

impl<'a> MappedFile<'a> {
    /// Wraps mapped bytes.
    pub fn new(map: &'a [u8]) -> (mapped: Self)
        ensures
            mapped@ == map@,
    {
        MappedFile { map }
    }

    /// Returns the mapped byte length.
    pub fn len(&self) -> (len: usize)
        ensures
            len == self@.len(),
    {
        self.map.len()
    }

    /// Returns whether the mapping is empty.
    pub fn is_empty(&self) -> (empty: bool)
        ensures
            empty == (self@.len() == 0),
    {
        self.map.len() == 0
    }

    /// Returns all mapped bytes.
    pub fn as_bytes(&self) -> (bytes: &'a [u8])
        ensures
            bytes@ == self@,
    {
        self.map
    }

    /// Returns a checked byte range using file-sized integer inputs.
    pub fn range(&self, offset: u64, byte_len: u64) -> (range: Option<&'a [u8]>)
        ensures
            match range {
                Some(range) => {
                    &&& offset + byte_len <= self@.len()
                    &&& range@ == self@.subrange(offset as int, offset + byte_len)
                },
                None => offset + byte_len > self@.len(),
            },
    {
        let map = self.map;
        let total: usize = map.len();
        if offset > total as u64 || byte_len > total as u64 - offset {
            return None;
        }
        let start: usize = offset as usize;
        let length: usize = byte_len as usize;
        Some(&map[start..start + length])
    }
}

/// A file is mapped if it is a regular one, holds something, keeps within the limit
/// and can be addressed. It is mapped whole.
pub proof fn law_files_within_their_limit_are_mapped(
    is_file: bool,
    file_len: u64,
    max_bytes: u64,
    result: Result<usize, MapError>,
)
    requires
        call_ensures(check_file, (is_file, file_len, max_bytes), result),
    ensures
        result is Ok <==> is_file && file_len > 0 && file_len <= max_bytes && file_len
            <= usize::MAX,
        result matches Ok(length) ==> length == file_len,
{
}

/// A range of a mapped file holds the bytes from its start on, one for one, and
/// ends inside the file.
pub proof fn law_ranges_hold_the_bytes_of_the_file(
    mapped: &MappedFile<'_>,
    offset: u64,
    byte_len: u64,
    range: Option<&[u8]>,
    i: int,
)
    requires
        call_ensures(MappedFile::range, (mapped, offset, byte_len), range),
    ensures
        range is Some <==> offset + byte_len <= mapped@.len(),
        range matches Some(part) ==> {
            &&& part@.len() == byte_len
            &&& 0 <= i < byte_len ==> part@[i] == mapped@[offset + i]
        },
{
}

/// A mapping has a limit above zero and the length that the file has, before it and
/// behind it.
pub proof fn law_mappings_are_checked(
    max_bytes: u64,
    file_len: u64,
    mapped_len: usize,
    current_len: u64,
    result: Result<(), MapError>,
)
    ensures
        call_ensures(check_limit, (max_bytes,), result) ==> (result is Ok <==> max_bytes > 0),
        call_ensures(check_mapped, (file_len, mapped_len), result) ==> {
            &&& result is Ok <==> mapped_len == file_len
            &&& result matches Err(error) ==> error == (MapError::MapLengthMismatch {
                expected: file_len,
                actual: mapped_len as u64,
            })
        },
        call_ensures(check_unchanged, (file_len, current_len), result) ==> {
            &&& result is Ok <==> current_len == file_len
            &&& result matches Err(error) ==> error == (MapError::FileSizeChanged {
                expected: file_len,
                actual: current_len,
            })
        },
{
}

} // verus!
