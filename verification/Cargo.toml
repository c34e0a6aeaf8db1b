[package]
name = "walkers"
version = "0.1.0"
edition = "2021"
publish = false

[dependencies]
futures = "0.3"
log = "0.4"
reqwest = { version = "0.12", default-features = false }
