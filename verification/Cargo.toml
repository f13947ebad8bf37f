[package]
name = "rarmdb"
version = "0.1.0"
edition = "2021"
publish = false

[dependencies]
rust_decimal = "1"
smallvec = "1"
tokio = { version = "1", features = ["fs", "io-util", "sync", "rt", "macros"] }
async-trait = "0.1"
