[package]
name = "gdax_rs"
version = "0.1.0"
edition = "2021"
publish = false

[dependencies]
hyper = "*"
itertools = "*"
percent-encoding = "1"
serde = { version = "1", features = ["derive"] }
serde_json = "1"
