[package]
name = "regolith_ffi"
version = "0.1.0"
edition = "2021"
publish = false

[dependencies]
regolith = "0.1.6"

[dev-dependencies]
tempfile = "3"
