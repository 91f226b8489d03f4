[package]
name = "mls_assist"
version = "0.1.0"
edition = "2021"
publish = false

[dependencies]
openmls = "=0.9.0"
openmls_traits = "=0.6.0"
openmls_rust_crypto = "=0.6.0"
tls_codec = "=0.5.0"
serde = { version = "*", features = ["derive"] }
serde_json = "*"
chrono = "*"
