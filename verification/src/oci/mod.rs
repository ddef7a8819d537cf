//! OCI package client.
//!
//! This follows the CNCF TAG Runtime guidance for [Wasm OCI Artifacts][1].
//!
//! [1]: https://tag-runtime.cncf.io/wgs/wasm/deliverables/wasm-oci-artifact/

pub mod auth;
pub mod backend;
pub mod challenge;
pub mod config;
pub mod decoding;
pub mod listing;
pub mod loader;
pub mod manifest;
pub mod nesting;
pub mod publisher;
pub mod publisher_wasm;
pub mod rehearsal;
pub mod shape;
pub mod token;
pub mod transport;
pub mod transport_default;
pub mod transport_wasm;
pub mod upload;
pub mod wit;
