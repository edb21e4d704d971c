[package]
name = "qir_formatter"
version = "0.1.0"
edition = "2021"
publish = false

[dependencies]
log = "0.4"
pyo3 = { version = "0.27", features = ["abi3-py38"] }
