[package]
name = "extend_polars"
version = "0.1.0"
edition = "2021"
publish = false

[dependencies]
polars = { version = "*", features = ["lazy", "dtype-struct"] }
polars-core = "*"
polars-lazy = "*"
pyo3 = "*"
pyo3-polars = "*"
rayon = "*"
