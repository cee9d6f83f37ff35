[package]
name = "na_nbt"
version = "0.2.0"
edition = "2021"
publish = false

[dependencies]
simd_cesu8 = "*"
base64ct = { version = "*", features = ["alloc"] }
serde = "1"
