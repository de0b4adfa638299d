[package]
name = "imghash"
version = "0.1.0"
edition = "2021"
publish = false

[dependencies]
bitvec = "1"
image = { version = "0.25", default-features = false, features = ["png", "jpeg", "rayon"] }
rayon = "1"
