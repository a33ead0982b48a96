[package]
name = "wrela_compiler"
version = "0.1.0"
edition = "2021"
publish = false

[dependencies]
xxhash-rust = { version = "*", features = ["xxh3"] }
half = "*"
