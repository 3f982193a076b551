//! Transactional cache of artifact sets that a caller builds with its own tools.

pub mod acquire;
pub mod boundaries;
pub mod boundary_laws;
pub mod error;
pub mod key;
pub mod laws;
pub mod layout;
pub mod output_laws;
pub mod outputs;
pub mod reuse;
pub mod spec;
pub mod validation;
pub mod validation_laws;
