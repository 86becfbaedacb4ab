[package]
name = "outflux"
version = "0.1.0"
edition = "2021"
publish = false

[dependencies]
reqwest = { version = "0.12", default-features = false }
thiserror = "1"
tracing = "0.1"
url = "2"
