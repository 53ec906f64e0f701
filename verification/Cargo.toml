[package]
name = "statusfmt"
version = "0.1.0"
edition = "2021"
publish = false

[dependencies]
crossbeam-channel = "*"
regex = "*"
serde = "*"
serde_derive = "*"
uuid = { version = "0.8", features = ["v4"] }
