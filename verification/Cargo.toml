[package]
name = "engine"
version = "0.1.0"
edition = "2021"
publish = false

[dependencies]
faer = "0.22"
statrs = { version = "0.18", default-features = false }
thiserror = "2"
