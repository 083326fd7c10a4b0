[package]
name = "domain_core"
version = "0.1.0"
edition = "2021"
publish = false

[dependencies]
bytes = "0.4"
rand = "0.6"
tokio-core = "0.1"
