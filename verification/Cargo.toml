[package]
name = "pch_easy_ipv6"
version = "0.1.0"
edition = "2021"
publish = false

[dependencies]
pnet = "*"
rand = "0.8"
serde = { version = "1", features = ["derive"] }
serde_json = "1"
lazy_static = "1"
