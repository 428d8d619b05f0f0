//! Models in GGUF files: their index, and the weights of their tensors.

pub mod affine;
pub mod affine_laws;
pub mod blocks;
pub mod decode;
pub mod descriptor;
pub mod error;
pub mod formats;
pub mod half;
pub mod index;
pub mod laws;
pub mod load;
pub mod matrix;
pub mod metadata;
pub mod opening_laws;
pub mod packing;
pub mod product;
pub mod quantized;
pub mod reading_laws;
pub mod refusal_laws;
pub mod term;
pub mod values;
pub mod visit;
pub mod visiting_laws;
