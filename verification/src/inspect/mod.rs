//! Inspection of GGUF files.

pub mod argument_laws;
pub mod arguments;
pub mod report;
pub mod report_laws;
