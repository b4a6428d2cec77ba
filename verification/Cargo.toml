[package]
name = "custom_image"
version = "0.1.0"
edition = "2021"
publish = false

[dependencies]
rusvid_core = "*"
pyo3 = "*"
