[package]
name = "bn"
version = "0.1.0"
edition = "2021"
publish = false

[dependencies]
rand = { version = "0.8", default-features = false }

[dev-dependencies]
rand = "0.8"
