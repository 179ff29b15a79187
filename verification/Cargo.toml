[package]
name = "ramu_pim_rust"
version = "0.1.0"
edition = "2021"
publish = false

[dependencies]
cxx = "*"
tracing = "*"
tracing-subscriber = { version = "*", features = ["env-filter"] }
