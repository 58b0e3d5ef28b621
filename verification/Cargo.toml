[package]
name = "investments"
version = "0.1.0"
edition = "2021"
publish = false

[dependencies]
rust_decimal = "1"
chrono = "0.4"
encoding_rs = "0.8"
csv = "1"
serde = { version = "1", features = ["derive"] }
