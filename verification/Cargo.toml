[package]
name = "internode"
version = "0.1.0"
edition = "2021"
publish = false

[dependencies]
genawaiter = { version = "*", default-features = false }
