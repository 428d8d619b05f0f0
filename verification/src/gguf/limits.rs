//! Limits that bound what a parser accepts.

use vstd::prelude::*;

verus! {

/// Default limit for the bytes of a header that is read piece by piece.
pub const DEFAULT_MAX_HEADER_BYTES: u64 = 256 * 1024 * 1024;

/// Limits on the contents of a file.
#[derive(Debug, Clone, Copy, PartialEq, Eq, Structural)]
pub struct Limits {
    pub max_string_bytes: u64,
    pub max_array_elements: u64,
    pub max_metadata_entries: u64,
    pub max_tensors: u64,
}

impl Default for Limits {
    fn default() -> (limits: Self)
        ensures
            limits == (Limits {
                max_string_bytes: 1_073_741_824,
                max_array_elements: 16_777_216,
                max_metadata_entries: 1_048_576,
                max_tensors: 1_048_576,
            }),
    {
        Limits {
            max_string_bytes: 1024 * 1024 * 1024,
            max_array_elements: 16 * 1024 * 1024,
            max_metadata_entries: 1024 * 1024,
            max_tensors: 1024 * 1024,
        }
    }
}

impl Limits {
    /// Limits no stricter than those of the C implementation of the format.
    pub fn upstream_compatible() -> (limits: Self)
        ensures
            limits == (Limits {
                max_string_bytes: 1_073_741_824,
                max_array_elements: 1_073_741_824,
                max_metadata_entries: u64::MAX,
                max_tensors: u64::MAX,
            }),
    {
        Limits {
            max_string_bytes: 1024 * 1024 * 1024,
            max_array_elements: 1024 * 1024 * 1024,
            max_metadata_entries: u64::MAX,
            max_tensors: u64::MAX,
        }
    }
}

/// Limits used when a file is validated piece by piece.
#[derive(Debug, Clone, Copy, PartialEq, Eq, Structural)]
pub struct HeaderLimits {
    pub format: Limits,
    pub max_header_bytes: u64,
}

impl Default for HeaderLimits {
    fn default() -> (limits: Self)
        ensures
            limits.max_header_bytes == DEFAULT_MAX_HEADER_BYTES,
            limits.format == (Limits {
                max_string_bytes: 1_073_741_824,
                max_array_elements: 16_777_216,
                max_metadata_entries: 1_048_576,
                max_tensors: 1_048_576,
            }),
    {
        HeaderLimits { format: Limits::default(), max_header_bytes: DEFAULT_MAX_HEADER_BYTES }
    }
}

} // verus!
