use std::io;

use ggml::mapping::{check_file, check_limit, check_mapped, check_unchanged, MapError, MappedFile};

/// Runs the checks of a mapping on a regular file with the given bytes.
fn open_fixture(bytes: &[u8], max_bytes: u64) -> Result<MappedFile<'_>, MapError> {
    let file_len = bytes.len() as u64;
    check_limit(max_bytes)?;
    let length = check_file(true, file_len, max_bytes)?;
    let map = &bytes[..length];
    check_mapped(file_len, map.len())?;
    check_unchanged(file_len, bytes.len() as u64)?;
    Ok(MappedFile::new(map))
}

#[test]
fn maps_file_and_checks_ranges() {
    let mapped = open_fixture(b"GGUFpayload", 64).unwrap();

    assert_eq!(mapped.len(), 11);
    assert!(!mapped.is_empty());
    assert_eq!(mapped.as_bytes(), b"GGUFpayload");
    assert_eq!(mapped.range(4, 7), Some(&b"payload"[..]));
    assert_eq!(mapped.range(10, 2), None);
    assert_eq!(mapped.range(u64::MAX, 1), None);
}

#[test]
fn rejects_zero_limit_before_opening() {
    let error = check_limit(0).unwrap_err();
    assert!(matches!(error, MapError::InvalidLimit));
    assert_eq!(error.message(), "mapping byte limit must be greater than zero");
}

#[test]
fn rejects_file_larger_than_limit() {
    let error = open_fixture(b"1234", 3).unwrap_err();
    assert!(matches!(
        error,
        MapError::FileTooLarge { size: 4, limit: 3 }
    ));
    assert_eq!(error.message(), "file size 4 exceeds mapping limit 3");
}

#[test]
fn rejects_empty_file() {
    let error = open_fixture(&[], 1).unwrap_err();
    assert!(matches!(error, MapError::EmptyFile));
    assert_eq!(error.message(), "cannot memory-map an empty file");
}

#[test]
fn maps_files_as_large_as_their_limit() {
    assert_eq!(open_fixture(b"1234", 4).unwrap().len(), 4);
    assert_eq!(check_file(true, 1, u64::MAX).unwrap(), 1);
}

#[test]
fn rejects_what_is_no_regular_file() {
    let error = check_file(false, 0, 1).unwrap_err();
    assert!(matches!(error, MapError::NotRegularFile));
    assert_eq!(error.message(), "mapping source is not a regular file");
}

#[test]
fn rejects_lengths_that_changed() {
    let error = check_mapped(5, 4).unwrap_err();
    assert!(matches!(error, MapError::MapLengthMismatch { expected: 5, actual: 4 }));
    assert_eq!(
        error.message(),
        "mapped length 4 does not match the expected file length 5"
    );
    let error = check_unchanged(5, 6).unwrap_err();
    assert!(matches!(error, MapError::FileSizeChanged { expected: 5, actual: 6 }));
    assert_eq!(
        error.message(),
        "file length changed from 5 to 6 bytes while mapping"
    );
    assert_eq!(
        MapError::AddressSpaceExceeded { size: 7 }.message(),
        "file size 7 does not fit the host address space"
    );
}

#[test]
fn mapping_errors_show_their_source() {
    let error = MapError::from(io::Error::other("disk on fire"));
    assert!(matches!(error, MapError::Io(_)));
    assert_eq!(error.message(), "disk on fire");
}

#[test]
fn ranges_end_with_the_mapping() {
    let mapped = MappedFile::new(b"abc");
    assert_eq!(mapped.range(0, 3), Some(&b"abc"[..]));
    assert_eq!(mapped.range(3, 0), Some(&b""[..]));
    assert_eq!(mapped.range(4, 0), None);
    assert_eq!(mapped.range(1, u64::MAX), None);
    assert!(MappedFile::new(b"").is_empty());
}
