[package]
name = "sage_sync"
version = "0.1.0"
edition = "2021"
publish = false

[dependencies]
chia-wallet-sdk = { version = "*", default-features = false }
hex = "0.4"
indexmap = "2"
itertools = "*"
serde = { version = "1", features = ["derive"] }
