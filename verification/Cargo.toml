[package]
name = "classgroup"
version = "0.1.0"
edition = "2021"
publish = false

[dependencies]
miracl_core_bls12381 = "*"
anyhow = "*"
serde = { version = "*", features = ["derive"] }
bicycl = "=0.0.1-alpha"
cpp_core = "*"
