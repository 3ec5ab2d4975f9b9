[package]
name = "bathory18"
version = "0.1.0"
edition = "2021"
publish = false

[dependencies]
feed-rs = "*"
reqwest = { version = "*", default-features = false, features = ["blocking"] }
notify-rust = "*"
dirs = "*"
single-instance = "*"
