[package]
name = "collab_server"
version = "0.1.0"
edition = "2021"
publish = false

[dependencies]
uuid = { version = "1", features = ["v4"] }
ws = "0.9"
log = "0.4"
