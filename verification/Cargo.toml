[package]
name = "orderbook"
version = "0.1.0"
edition = "2021"
publish = false

[dependencies]
rust_decimal = "1"
reqwest = { version = "0.11", default-features = false }
