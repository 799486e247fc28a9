[package]
name = "redefmt"
version = "0.1.0"
edition = "2021"
publish = false

[dependencies]
tokio-util = { version = "0.7", features = ["codec"] }
encode_unicode = "1"
elsa = "*"
thiserror = "*"
critical-section = { version = "1", features = ["std"] }
