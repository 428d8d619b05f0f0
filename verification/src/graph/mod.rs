//! Graphs of tensor operations.

pub mod builder;
pub mod building_laws;
pub mod error;
pub mod evaluate;
pub mod evaluation_laws;
pub mod laws;
pub mod node;
