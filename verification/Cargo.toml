[package]
name = "neutraltemplate"
version = "0.1.0"
edition = "2021"
publish = false

[dependencies]
serde_json = "=1.0.151"
pyo3 = "=0.29.3"
