[package]
name = "wasm_pkg_client"
version = "0.1.0"
edition = "2021"
publish = false

[dependencies]
anyhow = "=1.0.104"
async-trait = "=0.1.92"
base64 = "=0.22.1"
bytes = "=1.12.1"
docker_credential = "=1.4.0"
futures-util = "=0.3.34"
oci-client = { version = "=0.17.0", default-features = false, features = ["rustls-tls"] }
oci-wasm = { version = "=0.6.0", default-features = false, features = ["rustls-tls"] }
reqwest = { version = "=0.13.5", default-features = false, features = ["rustls"] }
secrecy = "=0.8.0"
semver = "=1.0.28"
serde = { version = "=1.0.229", features = ["derive"] }
serde_json = { version = "=1.0.154", features = ["preserve_order"] }
sha2 = "=0.10.9"
tokio = { version = "=1.54.1", features = ["io-util"] }
tracing = "=0.1.44"
wasm-metadata = "=0.253.0"
wasmparser = "=0.253.0"
wit-component = "=0.253.0"
wstd = "=0.6.8"

[dev-dependencies]
wat = "=1.263.0"
wit-component = { version = "=0.253.0", features = ["dummy-module"] }
wit-parser = "=0.253.0"
