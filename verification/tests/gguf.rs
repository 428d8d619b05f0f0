use std::io;
use std::io::{Cursor, Read, Seek, SeekFrom};

use ggml::gguf::error::{Error, ErrorKind, ReadError};
use ggml::gguf::file::Gguf;
use ggml::gguf::grammar::{DEFAULT_ALIGNMENT, MAX_METADATA_KEY_BYTES, MIN_METADATA_ENTRY_BYTES};
use ggml::gguf::header::{Action, Event, GgufHeader, HeaderReader};
use ggml::gguf::limits::{HeaderLimits, Limits};
use ggml::gguf::stream::SliceReader;
use ggml::gguf::types::{MetadataType, MetadataValue, ScalarValue, TensorType};

fn from_reader<R: Read + Seek>(reader: &mut R) -> Result<GgufHeader, ReadError> {
    from_reader_with_limits(reader, HeaderLimits::default())
}

fn from_reader_with_limits<R: Read + Seek>(
    reader: &mut R,
    limits: HeaderLimits,
) -> Result<GgufHeader, ReadError> {
    let mut validation = HeaderReader::new(limits);
    loop {
        match validation.action()? {
            Action::FindEnd => match reader.seek(SeekFrom::End(0)) {
                Ok(length) => validation.resume(Event::End(length))?,
                Err(error) => validation.resume(Event::Failed(error))?,
            },
            Action::SeekTo(position) => match reader.seek(SeekFrom::Start(position)) {
                Ok(_) => validation.resume(Event::Moved)?,
                Err(error) => validation.resume(Event::Failed(error))?,
            },
            Action::Read(length) => {
                let mut bytes = vec![0_u8; length];
                match reader.read_exact(&mut bytes) {
                    Ok(()) => validation.resume(Event::Bytes(&bytes))?,
                    Err(error) => validation.resume(Event::Failed(error))?,
                }
            }
            Action::Done => return Ok(validation.header()),
        }
    }
}

struct HeaderReadGuard {
    inner: Cursor<Vec<u8>>,
    read_limit: u64,
    bytes_read: u64,
}

impl HeaderReadGuard {
    fn new(bytes: Vec<u8>, read_limit: usize) -> Self {
        Self {
            inner: Cursor::new(bytes),
            read_limit: u64::try_from(read_limit).expect("test read limit fits u64"),
            bytes_read: 0,
        }
    }
}

impl Read for HeaderReadGuard {
    fn read(&mut self, buffer: &mut [u8]) -> io::Result<usize> {
        let position = self.inner.position();
        if !buffer.is_empty() && position >= self.read_limit {
            return Err(io::Error::other("attempted to read tensor data"));
        }
        let remaining = usize::try_from(self.read_limit - position).unwrap_or(usize::MAX);
        let read_length = buffer.len().min(remaining);
        let read = self.inner.read(&mut buffer[..read_length])?;
        self.bytes_read += u64::try_from(read).expect("test read count fits u64");
        Ok(read)
    }
}

impl Seek for HeaderReadGuard {
    fn seek(&mut self, position: SeekFrom) -> io::Result<u64> {
        self.inner.seek(position)
    }
}

struct ShortRead {
    inner: Cursor<Vec<u8>>,
}

impl Read for ShortRead {
    fn read(&mut self, buffer: &mut [u8]) -> io::Result<usize> {
        let read_length = buffer.len().min(1);
        self.inner.read(&mut buffer[..read_length])
    }
}

impl Seek for ShortRead {
    fn seek(&mut self, position: SeekFrom) -> io::Result<u64> {
        self.inner.seek(position)
    }
}

struct ReadFailure {
    inner: Cursor<Vec<u8>>,
}

impl Read for ReadFailure {
    fn read(&mut self, _buffer: &mut [u8]) -> io::Result<usize> {
        Err(io::Error::new(
            io::ErrorKind::PermissionDenied,
            "injected read failure",
        ))
    }
}

impl Seek for ReadFailure {
    fn seek(&mut self, position: SeekFrom) -> io::Result<u64> {
        self.inner.seek(position)
    }
}

struct SeekFailure;

impl Read for SeekFailure {
    fn read(&mut self, _buffer: &mut [u8]) -> io::Result<usize> {
        Ok(0)
    }
}

impl Seek for SeekFailure {
    fn seek(&mut self, _position: SeekFrom) -> io::Result<u64> {
        Err(io::Error::new(
            io::ErrorKind::PermissionDenied,
            "injected seek failure",
        ))
    }
}

struct ChangingLengthReader {
    inner: Cursor<Vec<u8>>,
    end_seeks: usize,
}

impl Read for ChangingLengthReader {
    fn read(&mut self, buffer: &mut [u8]) -> io::Result<usize> {
        self.inner.read(buffer)
    }
}

impl Seek for ChangingLengthReader {
    fn seek(&mut self, position: SeekFrom) -> io::Result<u64> {
        match position {
            SeekFrom::End(0) => {
                let actual = self.inner.seek(SeekFrom::End(0))?;
                self.end_seeks += 1;
                if self.end_seeks == 1 {
                    Ok(actual)
                } else {
                    Ok(actual + 1)
                }
            }
            other => self.inner.seek(other),
        }
    }
}

fn push_string(buffer: &mut Vec<u8>, value: &str) {
    buffer.extend_from_slice(&(value.len() as u64).to_le_bytes());
    buffer.extend_from_slice(value.as_bytes());
}

fn push_key(buffer: &mut Vec<u8>, key: &str, value_type: MetadataType) {
    push_string(buffer, key);
    buffer.extend_from_slice(&(value_type.code()).to_le_bytes());
}

fn valid_file_with_header_size() -> (Vec<u8>, usize) {
    let mut buffer = Vec::new();
    buffer.extend_from_slice(b"GGUF");
    buffer.extend_from_slice(&3_u32.to_le_bytes());
    buffer.extend_from_slice(&1_u64.to_le_bytes());
    buffer.extend_from_slice(&3_u64.to_le_bytes());

    push_key(&mut buffer, "general.alignment", MetadataType::U32);
    buffer.extend_from_slice(&32_u32.to_le_bytes());

    push_key(&mut buffer, "general.architecture", MetadataType::String);
    push_string(&mut buffer, "llama");

    push_key(&mut buffer, "tokenizer.ggml.tokens", MetadataType::Array);
    buffer.extend_from_slice(&(MetadataType::String.code()).to_le_bytes());
    buffer.extend_from_slice(&2_u64.to_le_bytes());
    push_string(&mut buffer, "a");
    push_string(&mut buffer, "bb");

    push_string(&mut buffer, "token_embd.weight");
    buffer.extend_from_slice(&2_u32.to_le_bytes());
    buffer.extend_from_slice(&4_u64.to_le_bytes());
    buffer.extend_from_slice(&2_u64.to_le_bytes());
    buffer.extend_from_slice(&0_u32.to_le_bytes());
    buffer.extend_from_slice(&0_u64.to_le_bytes());

    let header_size = buffer.len();
    while buffer.len() % 32 != 0 {
        buffer.push(0);
    }
    buffer.resize(buffer.len() + 32, 0);
    (buffer, header_size)
}

fn valid_file() -> Vec<u8> {
    valid_file_with_header_size().0
}

fn single_tensor_file(
    dimensions: &[u64],
    value_type: u32,
    tensor_offset: u64,
    data_bytes: usize,
) -> Vec<u8> {
    single_tensor_file_with_name("weight", dimensions, value_type, tensor_offset, data_bytes)
}

fn single_tensor_file_with_name(
    name: &str,
    dimensions: &[u64],
    value_type: u32,
    tensor_offset: u64,
    data_bytes: usize,
) -> Vec<u8> {
    let mut buffer = Vec::new();
    buffer.extend_from_slice(b"GGUF");
    buffer.extend_from_slice(&3_u32.to_le_bytes());
    buffer.extend_from_slice(&1_u64.to_le_bytes());
    buffer.extend_from_slice(&0_u64.to_le_bytes());
    push_string(&mut buffer, name);
    buffer.extend_from_slice(
        &u32::try_from(dimensions.len())
            .expect("test tensor rank fits u32")
            .to_le_bytes(),
    );
    for &dimension in dimensions {
        buffer.extend_from_slice(&dimension.to_le_bytes());
    }
    buffer.extend_from_slice(&value_type.to_le_bytes());
    buffer.extend_from_slice(&tensor_offset.to_le_bytes());
    while buffer.len() % 32 != 0 {
        buffer.push(0);
    }
    buffer.resize(buffer.len() + data_bytes, 0);
    buffer
}

#[test]
fn parses_metadata_and_tensor_table() {
    let bytes = valid_file();
    let file = Gguf::from_bytes(&bytes).unwrap();
    assert_eq!(file.version(), 3);
    assert_eq!(file.alignment(), 32);
    assert_eq!(file.metadata().len(), 3);
    assert_eq!(file.tensors().len(), 1);
    assert_eq!(file.tensors()[0].shape(), &[4, 2]);
    assert_eq!(file.tensors()[0].value_type.raw(), 0);
    assert_eq!(file.tensors()[0].byte_len, 32);
    assert_eq!(file.data_size(), 32);
    assert_eq!(file.data().len(), 32);
    let tensor_range = file.tensor_data_range(0).unwrap();
    assert_eq!(tensor_range, file.data_offset()..file.data_offset() + 32);
    assert_eq!(file.tensor_data(0), Some(&bytes[tensor_range]));
    assert_eq!(file.tensor_data(1), None);

    let MetadataValue::Array(tokens) = file.metadata_value("tokenizer.ggml.tokens").unwrap()
    else {
        panic!("expected token array");
    };
    assert_eq!(tokens.len(), 2);
    assert_eq!(tokens.get(0), Some(ScalarValue::String("a")));
    assert_eq!(tokens.get(1), Some(ScalarValue::String("bb")));
}

#[test]
fn validates_seekable_reader_without_reading_tensor_data() {
    let (bytes, header_size) = valid_file_with_header_size();
    let file_size = u64::try_from(bytes.len()).unwrap();
    let mut reader = HeaderReadGuard::new(bytes, header_size);

    let header = from_reader(&mut reader).unwrap();

    assert_eq!(header.version(), 3);
    assert_eq!(header.alignment(), 32);
    assert_eq!(header.header_size(), u64::try_from(header_size).unwrap());
    let expected_data_offset = u64::try_from(header_size.next_multiple_of(32)).unwrap();
    assert_eq!(header.data_offset(), expected_data_offset);
    assert_eq!(header.data_size(), 32);
    assert_eq!(header.file_size(), file_size);
    assert_eq!(header.metadata_count(), 3);
    assert_eq!(header.tensor_count(), 1);
    assert_eq!(
        header.tensor_data_range(),
        expected_data_offset..expected_data_offset + 32
    );
    assert_eq!(reader.bytes_read, u64::try_from(header_size).unwrap());
    assert_eq!(reader.inner.position(), header.data_offset());
}

#[test]
fn seekable_reader_ignores_nonzero_initial_cursor() {
    let bytes = valid_file();
    let mut reader = Cursor::new(bytes);
    reader.set_position(17);

    let header = from_reader(&mut reader).unwrap();

    assert_eq!(header.version(), 3);
    assert_eq!(reader.position(), header.data_offset());
}

#[test]
fn seekable_reader_accepts_short_reads() {
    let mut reader = ShortRead {
        inner: Cursor::new(valid_file()),
    };

    let header = from_reader(&mut reader).unwrap();

    assert_eq!(header.tensor_count(), 1);
    assert_eq!(reader.inner.position(), header.data_offset());
}

#[test]
fn seekable_reader_reports_read_failure_operation_and_offset() {
    let mut reader = ReadFailure {
        inner: Cursor::new(valid_file()),
    };

    let error = from_reader(&mut reader).unwrap_err();
    let message = error.message();

    assert!(matches!(
        &error,
        ReadError::Io {
            operation: "reading header bytes",
            offset: Some(0),
            source,
        } if source.kind() == io::ErrorKind::PermissionDenied
    ));
    assert!(message.contains("reading header bytes at byte 0"));
}

#[test]
fn seekable_reader_reports_seek_failure_operation() {
    let mut reader = SeekFailure;

    let error = from_reader(&mut reader).unwrap_err();
    let message = error.message();

    assert!(matches!(
        &error,
        ReadError::Io {
            operation: "determining the initial file length",
            offset: None,
            source,
        } if source.kind() == io::ErrorKind::PermissionDenied
    ));
    assert!(message.contains("determining the initial file length"));
    assert!(!message.contains("failed to read"));
}

#[test]
fn seekable_reader_rejects_file_length_change() {
    let bytes = valid_file();
    let expected = u64::try_from(bytes.len()).unwrap();
    let mut reader = ChangingLengthReader {
        inner: Cursor::new(bytes),
        end_seeks: 0,
    };

    let error = from_reader(&mut reader).unwrap_err();

    assert!(matches!(
        error,
        ReadError::FileLengthChanged {
            expected: observed_expected,
            actual,
        } if observed_expected == expected && actual == expected + 1
    ));
}

#[test]
fn seekable_reader_enforces_header_byte_limit_before_reading_past_it() {
    let (bytes, header_size) = valid_file_with_header_size();
    let limit = u64::try_from(header_size).unwrap() - 1;
    let mut reader = Cursor::new(bytes);
    let limits = HeaderLimits {
        max_header_bytes: limit,
        ..HeaderLimits::default()
    };

    let error = from_reader_with_limits(&mut reader, limits).unwrap_err();
    assert!(matches!(
        error,
        ReadError::Parse(Error {
            kind: ErrorKind::LimitExceeded {
                field: "header bytes",
                limit: observed_limit,
                ..
            },
            ..
        }) if observed_limit == limit
    ));
    assert!(reader.position() <= limit);
}

#[test]
fn seekable_reader_rejects_every_truncated_prefix() {
    let bytes = valid_file();
    for length in 0..bytes.len() {
        let expected = Gguf::from_bytes(&bytes[..length]).unwrap_err();
        let mut reader = Cursor::new(bytes[..length].to_vec());
        let actual = from_reader(&mut reader).unwrap_err();
        assert!(
            matches!(actual, ReadError::Parse(ref error) if error == &expected),
            "different error for prefix length {length}: expected {expected:?}, got {actual:?}"
        );
    }
}

#[test]
fn seekable_reader_rejects_truncated_tensor_data_from_file_length() {
    let bytes = single_tensor_file(&[8], 0, 0, 31);
    let mut reader = Cursor::new(bytes);
    let error = from_reader(&mut reader).unwrap_err();

    assert!(matches!(
        error,
        ReadError::Parse(Error {
            kind: ErrorKind::TensorDataTruncated {
                expected: 32,
                actual: 31
            },
            ..
        })
    ));
}

#[test]
fn seekable_reader_validates_boolean_array_bytes_while_streaming() {
    let mut bytes = Vec::new();
    bytes.extend_from_slice(b"GGUF");
    bytes.extend_from_slice(&3_u32.to_le_bytes());
    bytes.extend_from_slice(&0_u64.to_le_bytes());
    bytes.extend_from_slice(&1_u64.to_le_bytes());
    push_key(&mut bytes, "flags", MetadataType::Array);
    bytes.extend_from_slice(&(MetadataType::Bool.code()).to_le_bytes());
    bytes.extend_from_slice(&3_u64.to_le_bytes());
    bytes.extend_from_slice(&[0, 2, 1]);

    let expected = Gguf::from_bytes(&bytes).unwrap_err();
    let mut reader = Cursor::new(bytes);
    let actual = from_reader(&mut reader).unwrap_err();

    assert!(matches!(actual, ReadError::Parse(ref error) if error == &expected));
    assert_eq!(expected.kind, ErrorKind::InvalidBoolean(2));
}

#[test]
fn seekable_reader_rejects_hostile_counts_before_allocation() {
    let mut bytes = Vec::new();
    bytes.extend_from_slice(b"GGUF");
    bytes.extend_from_slice(&3_u32.to_le_bytes());
    bytes.extend_from_slice(&0_u64.to_le_bytes());
    bytes.extend_from_slice(&u64::MAX.to_le_bytes());
    let mut reader = Cursor::new(bytes);
    let limits = HeaderLimits {
        format: Limits::upstream_compatible(),
        max_header_bytes: 64,
    };

    let error = from_reader_with_limits(&mut reader, limits).unwrap_err();
    assert!(matches!(
        error,
        ReadError::Parse(Error {
            kind: ErrorKind::IntegerOverflow("metadata table"),
            ..
        })
    ));
}

#[test]
fn parses_version_two_layout() {
    let mut bytes = valid_file();
    bytes[4..8].copy_from_slice(&2_u32.to_le_bytes());

    let file = Gguf::from_bytes(&bytes).unwrap();
    assert_eq!(file.version(), 2);
    assert_eq!(file.tensors().len(), 1);
    assert_eq!(file.metadata().len(), 3);
}

#[test]
fn parses_every_supported_current_tensor_type() {
    for raw_type in 0..TensorType::COUNT {
        let Ok(value_type) = TensorType::try_from(raw_type) else {
            continue;
        };
        let padded_bytes = usize::try_from(
            value_type.type_size().next_multiple_of(u64::from(DEFAULT_ALIGNMENT)),
        )
        .unwrap();
        let bytes = single_tensor_file(&[value_type.block_size()], raw_type, 0, padded_bytes);

        let file = Gguf::from_bytes(&bytes).unwrap();
        assert_eq!(file.tensors()[0].value_type, value_type);
        assert_eq!(file.tensors()[0].byte_len, value_type.type_size());
    }
}

#[test]
fn bounded_deterministic_noise_never_panics() {
    let mut state = 0x4d59_5df4_d0f3_3173_u64;
    for length in 0..512 {
        let mut bytes = Vec::with_capacity(length);
        for _ in 0..length {
            state = state
                .wrapping_mul(6_364_136_223_846_793_005)
                .wrapping_add(1);
            bytes.push((state >> 56) as u8);
        }
        let _ = Gguf::from_bytes(&bytes);
    }
}

#[test]
fn rejects_every_truncated_prefix() {
    let bytes = valid_file();
    for length in 0..bytes.len() {
        assert!(
            Gguf::from_bytes(&bytes[..length]).is_err(),
            "accepted prefix length {length}"
        );
    }
}

#[test]
fn rejects_duplicate_metadata_keys() {
    let mut buffer = Vec::new();
    buffer.extend_from_slice(b"GGUF");
    buffer.extend_from_slice(&3_u32.to_le_bytes());
    buffer.extend_from_slice(&0_u64.to_le_bytes());
    buffer.extend_from_slice(&2_u64.to_le_bytes());
    for _ in 0..2 {
        push_key(&mut buffer, "duplicate", MetadataType::U8);
        buffer.push(1);
    }
    let error = Gguf::from_bytes(&buffer).unwrap_err();
    assert!(matches!(error.kind, ErrorKind::DuplicateMetadataKey(_)));
}

#[test]
fn distinguishes_unsupported_and_byte_swapped_versions() {
    let mut unsupported = Vec::from(*b"GGUF");
    unsupported.extend_from_slice(&0_u32.to_le_bytes());
    let error = Gguf::from_bytes(&unsupported).unwrap_err();
    assert_eq!(error.kind, ErrorKind::UnsupportedVersion(0));

    let mut byte_swapped = Vec::from(*b"GGUF");
    byte_swapped.extend_from_slice(&3_u32.to_be_bytes());
    let error = Gguf::from_bytes(&byte_swapped).unwrap_err();
    assert_eq!(error.kind, ErrorKind::EndiannessMismatch(0x0300_0000));
}

#[test]
fn rejects_metadata_key_outside_canonical_grammar() {
    let mut buffer = Vec::new();
    buffer.extend_from_slice(b"GGUF");
    buffer.extend_from_slice(&3_u32.to_le_bytes());
    buffer.extend_from_slice(&0_u64.to_le_bytes());
    buffer.extend_from_slice(&1_u64.to_le_bytes());
    push_key(&mut buffer, "General.Architecture", MetadataType::String);
    push_string(&mut buffer, "llama");

    let error = Gguf::from_bytes(&buffer).unwrap_err();
    assert_eq!(error.kind, ErrorKind::InvalidMetadataKey);
}

#[test]
fn accepts_indexed_metadata_key_segments() {
    let mut buffer = Vec::new();
    buffer.extend_from_slice(b"GGUF");
    buffer.extend_from_slice(&3_u32.to_le_bytes());
    buffer.extend_from_slice(&0_u64.to_le_bytes());
    buffer.extend_from_slice(&1_u64.to_le_bytes());
    push_key(
        &mut buffer,
        "general.base_model.0.name",
        MetadataType::String,
    );
    push_string(&mut buffer, "base");

    let file = Gguf::from_bytes(&buffer).unwrap();
    assert_eq!(file.metadata()[0].key, "general.base_model.0.name");
}

#[test]
fn rejects_metadata_key_longer_than_format_limit() {
    let key = "a".repeat(MAX_METADATA_KEY_BYTES + 1);
    assert_eq!(key.len(), MAX_METADATA_KEY_BYTES + 1);

    let mut buffer = Vec::new();
    buffer.extend_from_slice(b"GGUF");
    buffer.extend_from_slice(&3_u32.to_le_bytes());
    buffer.extend_from_slice(&0_u64.to_le_bytes());
    buffer.extend_from_slice(&1_u64.to_le_bytes());
    push_key(&mut buffer, &key, MetadataType::U8);
    buffer.push(1);

    let error = Gguf::from_bytes(&buffer).unwrap_err();
    assert_eq!(
        error.kind,
        ErrorKind::MetadataKeyTooLong(MAX_METADATA_KEY_BYTES + 1)
    );
}

#[test]
fn rejects_tensor_name_with_interior_nul() {
    let bytes = single_tensor_file_with_name("bad\0name", &[8], 0, 0, 32);
    let error = Gguf::from_bytes(&bytes).unwrap_err();
    assert_eq!(error.kind, ErrorKind::TensorNameContainsNul);
}

#[test]
fn preflights_metadata_table_before_reserving() {
    let mut buffer = Vec::new();
    buffer.extend_from_slice(b"GGUF");
    buffer.extend_from_slice(&3_u32.to_le_bytes());
    buffer.extend_from_slice(&0_u64.to_le_bytes());
    buffer.extend_from_slice(&Limits::default().max_metadata_entries.to_le_bytes());

    let error = Gguf::from_bytes(&buffer).unwrap_err();
    assert_eq!(
        error.kind,
        ErrorKind::UnexpectedEof {
            needed: usize::try_from(Limits::default().max_metadata_entries).unwrap()
                * MIN_METADATA_ENTRY_BYTES,
            remaining: 0
        }
    );
}

#[test]
fn preflights_string_array_headers_before_reserving() {
    let mut buffer = Vec::new();
    buffer.extend_from_slice(b"GGUF");
    buffer.extend_from_slice(&3_u32.to_le_bytes());
    buffer.extend_from_slice(&0_u64.to_le_bytes());
    buffer.extend_from_slice(&1_u64.to_le_bytes());
    push_key(&mut buffer, "values", MetadataType::Array);
    buffer.extend_from_slice(&(MetadataType::String.code()).to_le_bytes());
    buffer.extend_from_slice(&Limits::default().max_array_elements.to_le_bytes());

    let error = Gguf::from_bytes(&buffer).unwrap_err();
    assert_eq!(
        error.kind,
        ErrorKind::UnexpectedEof {
            needed: usize::try_from(Limits::default().max_array_elements).unwrap()
                * std::mem::size_of::<u64>(),
            remaining: 0
        }
    );
}

#[test]
fn rejects_noncanonical_boolean() {
    let mut buffer = Vec::new();
    buffer.extend_from_slice(b"GGUF");
    buffer.extend_from_slice(&3_u32.to_le_bytes());
    buffer.extend_from_slice(&0_u64.to_le_bytes());
    buffer.extend_from_slice(&1_u64.to_le_bytes());
    push_key(&mut buffer, "flag", MetadataType::Bool);
    buffer.push(2);
    let error = Gguf::from_bytes(&buffer).unwrap_err();
    assert_eq!(error.kind, ErrorKind::InvalidBoolean(2));
}

#[test]
fn enforces_configured_array_limit_before_allocation() {
    let mut buffer = Vec::new();
    buffer.extend_from_slice(b"GGUF");
    buffer.extend_from_slice(&3_u32.to_le_bytes());
    buffer.extend_from_slice(&0_u64.to_le_bytes());
    buffer.extend_from_slice(&1_u64.to_le_bytes());
    push_key(&mut buffer, "values", MetadataType::Array);
    buffer.extend_from_slice(&(MetadataType::U8.code()).to_le_bytes());
    buffer.extend_from_slice(&9_u64.to_le_bytes());

    let limits = Limits {
        max_array_elements: 8,
        ..Limits::default()
    };
    let error = Gguf::from_bytes_with_limits(&buffer, limits).unwrap_err();
    assert!(matches!(
        error.kind,
        ErrorKind::LimitExceeded {
            field: "metadata array length",
            value: 9,
            limit: 8
        }
    ));
}

#[test]
fn rejects_quantized_row_that_is_not_block_aligned() {
    let bytes = single_tensor_file(&[31], 2, 0, 32);
    let error = Gguf::from_bytes(&bytes).unwrap_err();
    assert_eq!(
        error.kind,
        ErrorKind::TensorRowNotDivisible {
            elements_per_row: 31,
            block_size: 32
        }
    );
}

#[test]
fn rejects_gap_before_first_tensor() {
    let bytes = single_tensor_file(&[8], 0, 32, 32);
    let error = Gguf::from_bytes(&bytes).unwrap_err();
    assert_eq!(
        error.kind,
        ErrorKind::UnexpectedTensorOffset {
            expected: 0,
            actual: 32
        }
    );
}

#[test]
fn rejects_truncated_tensor_data() {
    let bytes = single_tensor_file(&[8], 0, 0, 31);
    let error = Gguf::from_bytes(&bytes).unwrap_err();
    assert_eq!(
        error.kind,
        ErrorKind::TensorDataTruncated {
            expected: 32,
            actual: 31
        }
    );
}

#[test]
fn excludes_trailing_bytes_from_tensor_data() {
    let bytes = single_tensor_file(&[8], 0, 0, 37);
    let file = Gguf::from_bytes(&bytes).unwrap();
    assert_eq!(file.data_size(), 32);
    assert_eq!(file.data().len(), 32);
}

fn provenance_file() -> Vec<u8> {
    let mut bytes = Vec::new();
    bytes.extend_from_slice(b"GGUF");
    bytes.extend_from_slice(&3_u32.to_le_bytes());
    bytes.extend_from_slice(&0_u64.to_le_bytes());
    bytes.extend_from_slice(&5_u64.to_le_bytes());
    for (key, value) in [
        ("general.architecture", "llama"),
        ("general.base_model.0.name", "base"),
        ("general.base_model.0.author", "author"),
        ("general.dataset.0.name", "dataset"),
    ] {
        push_key(&mut bytes, key, MetadataType::String);
        push_string(&mut bytes, value);
    }
    push_key(&mut bytes, "general.base_model.count", MetadataType::U32);
    bytes.extend_from_slice(&1_u32.to_le_bytes());
    bytes
}

#[test]
fn parses_current_gguf_py_indexed_provenance_keys() {
    let bytes = provenance_file();
    let file = Gguf::from_bytes(&bytes).unwrap();

    assert_eq!(file.version(), 3);
    assert_eq!(file.tensors().len(), 0);
    assert_eq!(
        file.metadata_value("general.base_model.0.name"),
        Some(&MetadataValue::Scalar(ScalarValue::String("base")))
    );
    assert_eq!(
        file.metadata_value("general.base_model.0.author"),
        Some(&MetadataValue::Scalar(ScalarValue::String("author")))
    );
    assert_eq!(
        file.metadata_value("general.dataset.0.name"),
        Some(&MetadataValue::Scalar(ScalarValue::String("dataset")))
    );
}

#[test]
fn validates_current_gguf_py_fixture_from_file() {
    let mut file = Cursor::new(provenance_file());

    let header = from_reader(&mut file).unwrap();

    assert_eq!(header.version(), 3);
    assert_eq!(header.metadata_count(), 5);
    assert_eq!(header.tensor_count(), 0);
    assert_eq!(header.data_size(), 0);
    assert_eq!(header.data_offset(), header.header_size());
    assert!(header.header_size() <= header.file_size());
}

fn file_start(tensors: u64, entries: u64) -> Vec<u8> {
    let mut bytes = Vec::new();
    bytes.extend_from_slice(b"GGUF");
    bytes.extend_from_slice(&3_u32.to_le_bytes());
    bytes.extend_from_slice(&tensors.to_le_bytes());
    bytes.extend_from_slice(&entries.to_le_bytes());
    bytes
}

fn scalar_file(key: &str, value_type: MetadataType, value: &[u8]) -> Vec<u8> {
    let mut bytes = file_start(0, 1);
    push_key(&mut bytes, key, value_type);
    bytes.extend_from_slice(value);
    bytes
}

#[test]
fn reads_every_scalar_type() {
    let cases: Vec<(MetadataType, Vec<u8>, ScalarValue<'static>)> = vec![
        (MetadataType::U8, vec![7], ScalarValue::U8(7)),
        (MetadataType::I8, vec![0xff], ScalarValue::I8(-1)),
        (MetadataType::U16, vec![1, 2], ScalarValue::U16(513)),
        (MetadataType::I16, vec![0xfe, 0xff], ScalarValue::I16(-2)),
        (MetadataType::U32, vec![1, 0, 0, 1], ScalarValue::U32(16_777_217)),
        (MetadataType::I32, vec![0, 0, 0, 0x80], ScalarValue::I32(i32::MIN)),
        (
            MetadataType::F32,
            1.5_f32.to_le_bytes().to_vec(),
            ScalarValue::F32(1.5_f32.to_bits()),
        ),
        (MetadataType::Bool, vec![1], ScalarValue::Bool(true)),
        (MetadataType::U64, vec![2, 0, 0, 0, 0, 0, 0, 0], ScalarValue::U64(2)),
        (MetadataType::I64, vec![0xff; 8], ScalarValue::I64(-1)),
        (
            MetadataType::F64,
            (-2.25_f64).to_le_bytes().to_vec(),
            ScalarValue::F64((-2.25_f64).to_bits()),
        ),
    ];
    for (value_type, encoded, expected) in cases {
        let bytes = scalar_file("key", value_type, &encoded);
        let file = Gguf::from_bytes(&bytes).unwrap();
        assert_eq!(file.metadata_value("key"), Some(&MetadataValue::Scalar(expected)));
        assert_eq!(file.metadata()[0].value.value_type(), value_type);
        assert_eq!(file.metadata_value("other"), None);
    }
}

#[test]
fn reads_items_of_fixed_width_arrays() {
    let mut bytes = file_start(0, 1);
    push_key(&mut bytes, "values", MetadataType::Array);
    bytes.extend_from_slice(&MetadataType::I16.code().to_le_bytes());
    bytes.extend_from_slice(&3_u64.to_le_bytes());
    for value in [5_i16, -6, 7] {
        bytes.extend_from_slice(&value.to_le_bytes());
    }
    let file = Gguf::from_bytes(&bytes).unwrap();
    let MetadataValue::Array(array) = file.metadata_value("values").unwrap() else {
        panic!("expected an array");
    };
    assert_eq!(array.element_type(), MetadataType::I16);
    assert_eq!(array.len(), 3);
    assert!(!array.is_empty());
    assert_eq!(array.get(1), Some(ScalarValue::I16(-6)));
    assert_eq!(array.get(3), None);
    assert_eq!(array.clone(), *array);
    assert_eq!(file.clone(), file);
}

#[test]
fn reports_each_structural_error() {
    let mut wrong = valid_file();
    wrong[0] = b'X';
    assert_eq!(
        Gguf::from_bytes(&wrong).unwrap_err().kind,
        ErrorKind::InvalidMagic(*b"XGUF")
    );

    let bytes = scalar_file("", MetadataType::U8, &[1]);
    assert_eq!(Gguf::from_bytes(&bytes).unwrap_err().kind, ErrorKind::EmptyMetadataKey);

    let mut bytes = file_start(0, 1);
    push_string(&mut bytes, "key");
    bytes.extend_from_slice(&99_u32.to_le_bytes());
    assert_eq!(
        Gguf::from_bytes(&bytes).unwrap_err().kind,
        ErrorKind::InvalidMetadataType(99)
    );

    let mut bytes = file_start(0, 1);
    push_key(&mut bytes, "key", MetadataType::Array);
    bytes.extend_from_slice(&MetadataType::Array.code().to_le_bytes());
    bytes.extend_from_slice(&0_u64.to_le_bytes());
    assert_eq!(
        Gguf::from_bytes(&bytes).unwrap_err().kind,
        ErrorKind::NestedMetadataArray
    );

    let bytes = scalar_file("general.alignment", MetadataType::U32, &12_u32.to_le_bytes());
    assert_eq!(
        Gguf::from_bytes(&bytes).unwrap_err().kind,
        ErrorKind::InvalidAlignment(12)
    );

    let bytes = single_tensor_file_with_name(&"n".repeat(64), &[8], 0, 0, 32);
    assert_eq!(
        Gguf::from_bytes(&bytes).unwrap_err().kind,
        ErrorKind::TensorNameTooLong(64)
    );

    let bytes = single_tensor_file(&[1, 1, 1, 1, 1], 0, 0, 32);
    assert_eq!(
        Gguf::from_bytes(&bytes).unwrap_err().kind,
        ErrorKind::TooManyDimensions(5)
    );

    let bytes = single_tensor_file(&[u64::MAX], 0, 0, 32);
    assert_eq!(
        Gguf::from_bytes(&bytes).unwrap_err().kind,
        ErrorKind::InvalidDimension(u64::MAX)
    );

    let bytes = single_tensor_file(&[8], 4, 0, 32);
    assert_eq!(
        Gguf::from_bytes(&bytes).unwrap_err().kind,
        ErrorKind::InvalidTensorType(4)
    );

    let bytes = single_tensor_file(&[8], 0, 3, 32);
    assert_eq!(
        Gguf::from_bytes(&bytes).unwrap_err().kind,
        ErrorKind::MisalignedTensorOffset { offset: 3, alignment: 32 }
    );

    let mut bytes = file_start(0, 1);
    bytes.extend_from_slice(&2_u64.to_le_bytes());
    bytes.extend_from_slice(&[0xff, 0xfe]);
    bytes.extend_from_slice(&MetadataType::U8.code().to_le_bytes());
    bytes.push(1);
    assert!(matches!(
        Gguf::from_bytes(&bytes).unwrap_err().kind,
        ErrorKind::InvalidUtf8(_)
    ));

    let mut bytes = file_start(2, 0);
    for _ in 0..2 {
        push_string(&mut bytes, "same");
        bytes.extend_from_slice(&1_u32.to_le_bytes());
        bytes.extend_from_slice(&8_u64.to_le_bytes());
        bytes.extend_from_slice(&0_u32.to_le_bytes());
        bytes.extend_from_slice(&0_u64.to_le_bytes());
    }
    assert_eq!(
        Gguf::from_bytes(&bytes).unwrap_err().kind,
        ErrorKind::DuplicateTensorName("same".to_owned())
    );

    let bytes = single_tensor_file(&[1 << 62, 4], 0, 0, 32);
    assert!(matches!(
        Gguf::from_bytes(&bytes).unwrap_err().kind,
        ErrorKind::IntegerOverflow(_)
    ));
}

#[test]
fn gguf_errors_describe_themselves() {
    let error = Gguf::from_bytes(b"GG").unwrap_err();
    assert_eq!(error.offset, 0);
    assert_eq!(error.kind, ErrorKind::UnexpectedEof { needed: 4, remaining: 2 });
    assert!(error.message().starts_with("GGUF parse error at byte 0: "));
    let changed = ReadError::FileLengthChanged { expected: 3, actual: 4 };
    assert_eq!(
        changed.message(),
        "GGUF file length changed while reading: expected 3 bytes, found 4"
    );
    let parse = ReadError::from(error.clone());
    assert_eq!(parse.message(), error.message());
}

#[test]
fn tensor_types_know_their_layout() {
    let q4_0 = TensorType::try_from(2).unwrap();
    assert_eq!(q4_0.raw(), 2);
    assert_eq!(q4_0.name(), "Q4_0");
    assert_eq!(q4_0.block_size(), 32);
    assert_eq!(q4_0.type_size(), 18);
    assert!(TensorType::try_from(43).is_err());
    assert!(TensorType::try_from(31).is_err());
    assert_eq!(MetadataType::try_from(8).unwrap(), MetadataType::String);
    assert!(MetadataType::try_from(13).is_err());
}

#[test]
fn reader_and_slice_agree_on_the_layout() {
    let bytes = valid_file();
    let file = Gguf::from_bytes(&bytes).unwrap();
    let header = from_reader(&mut Cursor::new(bytes.clone())).unwrap();
    assert_eq!(header.version(), file.version());
    assert_eq!(header.alignment(), file.alignment());
    assert_eq!(header.data_offset(), file.data_offset() as u64);
    assert_eq!(header.data_size(), file.data_size() as u64);
    assert_eq!(header.metadata_count(), file.metadata().len() as u64);
    assert_eq!(header.tensor_count(), file.tensors().len() as u64);
}

#[test]
fn reader_asks_for_no_byte_behind_the_header() {
    let (bytes, header_size) = valid_file_with_header_size();
    let mut reader = Cursor::new(bytes);
    let mut validation = HeaderReader::new(HeaderLimits::default());
    let mut furthest = 0;
    loop {
        match validation.action().unwrap() {
            Action::FindEnd => {
                let length = reader.seek(SeekFrom::End(0)).unwrap();
                validation.resume(Event::End(length)).unwrap();
            }
            Action::SeekTo(position) => {
                reader.seek(SeekFrom::Start(position)).unwrap();
                validation.resume(Event::Moved).unwrap();
            }
            Action::Read(length) => {
                let mut chunk = vec![0_u8; length];
                reader.read_exact(&mut chunk).unwrap();
                furthest = reader.position();
                validation.resume(Event::Bytes(&chunk)).unwrap();
            }
            Action::Done => break,
        }
    }
    assert_eq!(furthest, header_size as u64);
    assert_eq!(validation.header().header_size(), header_size as u64);
}

fn failure_at(bytes: &[u8], step: usize) -> (&'static str, Option<u64>) {
    let mut reader = Cursor::new(bytes.to_vec());
    let mut validation = HeaderReader::new(HeaderLimits::default());
    for _ in 0..step {
        match validation.action().unwrap() {
            Action::FindEnd => {
                let length = reader.seek(SeekFrom::End(0)).unwrap();
                validation.resume(Event::End(length)).unwrap();
            }
            Action::SeekTo(position) => {
                reader.seek(SeekFrom::Start(position)).unwrap();
                validation.resume(Event::Moved).unwrap();
            }
            Action::Read(length) => {
                let mut chunk = vec![0_u8; length];
                reader.read_exact(&mut chunk).unwrap();
                validation.resume(Event::Bytes(&chunk)).unwrap();
            }
            Action::Done => panic!("the file was validated before the step"),
        }
    }
    validation.action().unwrap();
    match validation.resume(Event::Failed(io::Error::other("injected"))) {
        Err(ReadError::Io { operation, offset, .. }) => (operation, offset),
        other => panic!("{:?}", other),
    }
}

#[test]
fn reader_names_each_operation_that_fails() {
    let mut bytes = file_start(0, 2);
    push_key(&mut bytes, "n", MetadataType::Array);
    bytes.extend_from_slice(&(MetadataType::U16.code()).to_le_bytes());
    bytes.extend_from_slice(&3_u64.to_le_bytes());
    let numbers = bytes.len() as u64;
    bytes.extend_from_slice(&[0; 6]);
    push_key(&mut bytes, "b", MetadataType::Array);
    bytes.extend_from_slice(&(MetadataType::Bool.code()).to_le_bytes());
    bytes.extend_from_slice(&2_u64.to_le_bytes());
    let flags = bytes.len() as u64;
    bytes.extend_from_slice(&[0, 1]);
    let end = bytes.len() as u64;

    let operations: Vec<_> = (0..20).map(|step| failure_at(&bytes, step)).collect();
    assert_eq!(operations[0], ("determining the initial file length", None));
    assert_eq!(operations[1], ("seeking to the file start", Some(0)));
    assert_eq!(operations[2], ("reading header bytes", Some(0)));
    assert_eq!(operations[3], ("reading header bytes", Some(4)));
    assert_eq!(
        operations[11],
        ("skipping fixed-width metadata values", Some(numbers + 6))
    );
    assert_eq!(operations[17], ("reading boolean metadata values", Some(flags)));
    assert_eq!(operations[18], ("rechecking the file length", None));
    assert_eq!(operations[19], ("positioning at tensor data", Some(end)));
}

#[test]
fn reader_reports_missing_memory_where_it_stands() {
    let bytes = valid_file();
    let mut validation = HeaderReader::new(HeaderLimits::default());
    validation.resume(Event::End(bytes.len() as u64)).unwrap();
    validation.resume(Event::Moved).unwrap();
    validation.resume(Event::Bytes(&bytes[..4])).unwrap();
    assert_eq!(validation.action().unwrap(), Action::Read(4));
    assert!(matches!(
        validation.resume(Event::OutOfMemory),
        Err(ReadError::Parse(Error {
            offset: 4,
            kind: ErrorKind::AllocationFailed("seekable-reader field"),
        }))
    ));
}

#[test]
fn wider_limits_accept_the_same_contents() {
    let bytes = valid_file();
    let narrow = Gguf::from_bytes(&bytes).unwrap();
    let wide = Gguf::from_bytes_with_limits(&bytes, Limits::upstream_compatible()).unwrap();
    assert_eq!(wide.tensors(), narrow.tensors());
    assert_eq!(wide.metadata().len(), narrow.metadata().len());
    assert_eq!(wide.data_offset(), narrow.data_offset());
    assert_eq!(wide.data_size(), narrow.data_size());
}

#[test]
fn unlimited_reader_and_slice_say_the_same() {
    let limits = HeaderLimits {
        format: Limits::default(),
        max_header_bytes: u64::MAX,
    };
    let (bytes, header_size) = valid_file_with_header_size();
    for at in 0..=header_size {
        let mut other = bytes.clone();
        other[at] ^= 0x55;
        let whole = Gguf::from_bytes(&other);
        let streamed = from_reader_with_limits(&mut Cursor::new(other.clone()), limits);
        match (whole, streamed) {
            (Ok(file), Ok(header)) => {
                assert_eq!(header.version(), file.version());
                assert_eq!(header.alignment(), file.alignment());
                assert_eq!(header.data_offset(), file.data_offset() as u64);
                assert_eq!(header.data_size(), file.data_size() as u64);
                assert_eq!(header.metadata_count(), file.metadata().len() as u64);
                assert_eq!(header.tensor_count(), file.tensors().len() as u64);
            }
            (Err(expected), Err(ReadError::Parse(actual))) => assert_eq!(actual, expected),
            (whole, streamed) => panic!("{:?} and {:?}", whole.is_ok(), streamed),
        }
    }
}

fn empty_fields_file() -> Vec<u8> {
    let mut bytes = file_start(0, 4);
    push_key(&mut bytes, "text", MetadataType::String);
    push_string(&mut bytes, "");
    push_key(&mut bytes, "texts", MetadataType::Array);
    bytes.extend_from_slice(&(MetadataType::String.code()).to_le_bytes());
    bytes.extend_from_slice(&2_u64.to_le_bytes());
    push_string(&mut bytes, "");
    push_string(&mut bytes, "");
    push_key(&mut bytes, "flags", MetadataType::Array);
    bytes.extend_from_slice(&(MetadataType::Bool.code()).to_le_bytes());
    bytes.extend_from_slice(&0_u64.to_le_bytes());
    push_key(&mut bytes, "numbers", MetadataType::Array);
    bytes.extend_from_slice(&(MetadataType::U32.code()).to_le_bytes());
    bytes.extend_from_slice(&0_u64.to_le_bytes());
    bytes
}

#[test]
fn reader_gets_past_empty_fields() {
    let bytes = empty_fields_file();
    let header = from_reader(&mut Cursor::new(bytes.clone())).unwrap();
    assert_eq!(header.metadata_count(), 4);
    assert_eq!(header.header_size(), bytes.len() as u64);
    let mut reader = SliceReader { bytes: &bytes, position: 0 };
    assert_eq!(GgufHeader::from_reader(&mut reader).unwrap(), header);
}

#[test]
fn validations_end_after_a_bounded_number_of_actions() {
    for bytes in [valid_file(), empty_fields_file()] {
        let mut reader = Cursor::new(bytes.clone());
        let mut validation = HeaderReader::new(HeaderLimits::default());
        let mut actions = 0;
        loop {
            let action = validation.action().unwrap();
            if action == Action::Done {
                break;
            }
            actions += 1;
            match action {
                Action::FindEnd => {
                    let length = reader.seek(SeekFrom::End(0)).unwrap();
                    validation.resume(Event::End(length)).unwrap();
                }
                Action::SeekTo(position) => {
                    reader.seek(SeekFrom::Start(position)).unwrap();
                    validation.resume(Event::Moved).unwrap();
                }
                Action::Read(length) => {
                    let mut chunk = vec![0_u8; length];
                    reader.read_exact(&mut chunk).unwrap();
                    validation.resume(Event::Bytes(&chunk)).unwrap();
                }
                Action::Done => unreachable!(),
            }
        }
        assert!(actions <= 2 * bytes.len() + 6);
    }
}

#[test]
fn slice_reader_is_left_at_the_tensor_data() {
    let bytes = valid_file();
    let expected = from_reader(&mut Cursor::new(bytes.clone())).unwrap();
    for position in [0, 17, bytes.len() as u64, u64::MAX] {
        let mut reader = SliceReader { bytes: &bytes, position };
        let header = GgufHeader::from_reader(&mut reader).unwrap();
        assert_eq!(header, expected);
        assert_eq!(reader.position, header.data_offset());
        let range = header.tensor_data_range();
        assert!(header.header_size() <= range.start);
        assert_eq!(range.start, header.data_offset());
        assert_eq!(range.end, header.data_offset() + header.data_size());
    }
}

#[test]
fn slice_reader_reports_what_the_parser_reports() {
    let limits = HeaderLimits {
        format: Limits::default(),
        max_header_bytes: u64::MAX,
    };
    let bytes = valid_file();
    for end in 0..bytes.len() {
        let prefix = &bytes[..end];
        let expected = Gguf::from_bytes(prefix).unwrap_err();
        let mut reader = SliceReader { bytes: prefix, position: 3 };
        match GgufHeader::from_reader_with_limits(&mut reader, limits) {
            Err(ReadError::Parse(error)) => assert_eq!(error, expected),
            other => panic!("{:?}", other),
        }
    }
    let small = HeaderLimits {
        format: Limits::default(),
        max_header_bytes: 7,
    };
    let mut reader = SliceReader { bytes: &bytes, position: 0 };
    assert!(matches!(
        GgufHeader::from_reader_with_limits(&mut reader, small),
        Err(ReadError::Parse(Error {
            offset: 4,
            kind: ErrorKind::LimitExceeded { field: "header bytes", value: 8, limit: 7 },
        }))
    ));
}
