[package]
name = "aegis"
version = "0.1.0"
edition = "2021"
publish = false

[dependencies]
goblin = "*"
iced-x86 = "1"
sha2 = "0.10"
sha1 = "0.10"
md-5 = "0.10"
hex = "0.4"
wasmparser = "*"
serde = { version = "1", features = ["derive"] }
serde_json = "1"
thiserror = "2"
wasm-bindgen = "0.2"
yara-x = "*"
