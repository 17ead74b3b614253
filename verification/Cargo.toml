[package]
name = "brentos"
version = "0.1.0"
edition = "2021"
publish = false

[dependencies]
smoltcp = { version = "0.8", default-features = false, features = ["proto-ipv4"] }
