[package]
name = "ft_fastpath"
version = "0.1.0"
edition = "2021"
publish = false

[dependencies]
blake3 = "1"
crossbeam-channel = "0.5"
ignore = "0.4"
pyo3 = { version = "0.22", features = ["extension-module", "abi3-py38"] }
rayon = "1"
