[package]
name = "powerio-dist"
version = "0.1.0"
edition = "2021"
publish = false

[dependencies]
serde = { version = "=1.0.229", features = ["derive"] }
serde_json = { version = "=1.0.154", features = ["float_roundtrip"] }
thiserror = "=2.0.21"
wasm-bindgen = "=0.2.130"
serde-wasm-bindgen = "=0.6.5"
