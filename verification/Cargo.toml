[package]
name = "mkem"
version = "0.1.0"
edition = "2021"
publish = false

[dependencies]
sha3 = "0.10"
rand_core = { version = "0.6", features = ["getrandom"] }
