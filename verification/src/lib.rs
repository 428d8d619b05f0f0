//! Verified GGUF parsing and inspection, model indexing and weight decoding,
//! checked tensors and graphs, and versioned agent memory.

pub mod bytes;
pub mod digest;
pub mod gguf;
pub mod graph;
pub mod inspect;
pub mod mapping;
pub mod memory;
pub mod message_laws;
pub mod model;
pub mod path;
pub mod tensor;
pub mod text;
pub mod text_laws;
