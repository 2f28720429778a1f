[package]
name = "snarkd_crypto"
version = "0.1.0"
edition = "2021"
publish = false

[dependencies]
indexmap = "2"

[dev-dependencies]
itertools = "0.12"
