//! Content-addressed cache of Cargo Wasm builds.

pub mod acquire;
pub mod build_laws;
pub mod command;
pub mod config;
pub mod config_laws;
pub mod error;
pub mod identity;
pub mod input_laws;
pub mod inputs;
pub mod laws;
pub mod metadata;
pub mod progress;
pub mod projection;
pub mod projection_laws;
pub mod session;
pub mod shared;
pub mod spec;
