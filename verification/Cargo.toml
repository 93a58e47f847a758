[package]
name = "bazel_compat"
version = "0.1.0"
edition = "2021"
publish = false

[dependencies]
blake3 = "1"
dirs = "*"
hex = "0.4"
once_cell = "1"
serde = { version = "1", features = ["derive"] }
serde_json = "1"
sha2 = "0.10"
starlark_map = "*"
