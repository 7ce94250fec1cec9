[package]
name = "rhai-ml"
version = "0.1.3"
edition = "2021"
publish = false

[dependencies]
rhai = "1.16"
smartcore = { version = "0.3", features = ["serde"] }
bincode = "1.3"
