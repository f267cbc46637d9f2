[package]
name = "dbk2jp"
version = "0.1.0"
edition = "2021"
publish = false

[dependencies]
rusb = "0.9"
pyo3 = { version = "0.26", features = ["abi3-py38", "extension-module"] }
