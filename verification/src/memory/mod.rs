//! Versioned, content-addressed memory for agents.

pub mod model;
pub mod types;
pub mod clock;
pub mod store;
pub mod laws;
pub mod access_laws;
pub mod dreaming_laws;
