[package]
name = "relay"
version = "0.1.0"
edition = "2021"
publish = false

[dependencies]
arrow = { version = "*", default-features = false, features = ["ffi"] }
arrow-array = "*"
arrow-ipc = "*"
arrow-ord = "*"
arrow-schema = "*"
parquet = { version = "*", default-features = false, features = ["arrow"] }
memmap2 = "*"
rayon = "*"
serde_json = "*"
libc = "*"
bytemuck = "*"
thiserror = "*"
pyo3 = "*"
pyo3-arrow = "*"

