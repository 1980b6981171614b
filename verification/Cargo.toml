[package]
name = "crypto_arbitrage_core"
version = "0.1.0"
edition = "2021"
publish = false

[dependencies]
serde = { version = "*", features = ["derive"] }
rust_decimal = "*"
pyo3 = "*"
