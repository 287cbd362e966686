[package]
name = "rdf_engine"
version = "0.1.0"
edition = "2021"
publish = false

[dependencies]
oxigraph = { version = "*", default-features = false }
serde = { version = "1", features = ["derive"] }
serde_json = "1"
serde-wasm-bindgen = "0.6"
wasm-bindgen = "0.2"
