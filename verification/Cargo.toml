[package]
name = "miden_tx_core"
version = "0.1.0"
edition = "2021"
publish = false

[dependencies]
miden-crypto = "0.7"
miden-assembly = "0.6"
miden-core = "0.6"
miden-processor = "0.6"
