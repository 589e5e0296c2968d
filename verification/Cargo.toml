[package]
name = "jamspace"
version = "0.1.0"
edition = "2021"
publish = false

[dependencies]
sfml = { version = "0.21", default-features = false, features = ["graphics"] }
