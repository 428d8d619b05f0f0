//! Checked row-major tensors over values of any kind.

pub mod arithmetic;
pub mod error;
pub mod shape;
pub mod broadcast_laws;
pub mod checking_laws;
pub mod dense;
pub mod elementwise;
pub mod matrix;
pub mod rows;
pub mod reals;
pub mod refusal_laws;
pub mod rotary;
pub mod attention;
pub mod laws;
pub mod meaning;
pub mod rotary_laws;
pub mod attention_laws;
