[package]
name = "fedimint_server"
version = "0.1.0"
edition = "2021"
publish = false

[dependencies]
bitcoin_hashes = "=0.11.0"
fedimint-core = { version = "=0.6.2", default-features = false }
fedimint-threshold-crypto = "=0.1.0"
serde = { version = "=1.0.229", features = ["derive"] }
strum = "=0.24.1"
strum_macros = "=0.24.3"

[dev-dependencies]
rand = "=0.8.8"
