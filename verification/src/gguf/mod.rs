//! Reading and validating GGUF files.

pub mod anatomy;
pub mod error;
pub mod fault_laws;
pub mod file;
pub mod grammar;
pub mod header;
pub mod laws;
pub mod limits;
pub(crate) mod parser;
pub mod stream;
pub mod types;
pub mod writing;
