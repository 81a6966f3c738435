[package]
name = "linprog_core"
version = "0.1.0"
edition = "2021"

[dependencies]
num-rational = { version = "0.4", default-features = false }
num-traits = "0.2"
pyo3 = "*"
