//! Verified building blocks for Internet Computer test artifacts.

pub mod artifacts;
pub mod batch;
pub mod batch_laws;
pub mod benchmark;
pub mod cache_fs;
pub mod digest;
pub mod document;
pub mod fake;
pub mod icp;
pub mod line_laws;
pub mod numbers;
pub mod order;
pub mod path_laws;
pub mod paths;
pub mod performance;
pub mod places;
pub mod resolution;
pub mod settings;
pub mod text;
pub mod timing;
pub mod tool;
pub mod transaction;
pub mod transaction_batch;
pub mod tree;
pub mod wasm;
pub mod wasm_batch;
pub mod wasm_cache;
pub mod workspace;

pub use fake::Fake;
