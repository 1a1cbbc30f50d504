[package]
name = "tac"
version = "0.2.3"
edition = "2021"
publish = false

[dependencies]
memmap = "*"
uuid = { version = "*", features = ["v4"] }
