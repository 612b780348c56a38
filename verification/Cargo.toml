[package]
name = "bgzf_engine"
version = "0.1.0"
edition = "2021"
publish = false

[dependencies]
flate2 = "1"
indexmap = "2"
crossbeam-channel = "0.5"
tokio = { version = "1", default-features = false, features = ["io-util", "rt"] }
