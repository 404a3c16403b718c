[package]
name = "sealed_store"
version = "0.1.0"
edition = "2021"
publish = false

[dependencies]
ring = "*"
reqwest = { version = "*", default-features = false, features = ["blocking"] }
rocket = { version = "*", default-features = false }
