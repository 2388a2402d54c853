[package]
name = "shell_protocol"
version = "0.1.0"
edition = "2021"
publish = false

[dependencies]
bincode = { version = "2.0.1", default-features = false, features = ["std"] }
