[package]
name = "pexeso"
version = "0.1.0"
edition = "2021"
publish = false

[dependencies]
emojis = "0.6"
rand = "0.8"
