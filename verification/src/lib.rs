//! Client for Wasm packages stored in OCI registries.
//!
//! The library decides what is sent to a registry and what its answers mean; the sending itself is left
//! to its users.

pub mod digest;
pub mod error;
pub mod http;
pub mod http_client;
pub mod json;
pub mod metadata;
pub mod oci;
pub mod package;
pub mod text;
pub mod text_map;
