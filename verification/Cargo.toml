[package]
name = "clipat"
version = "0.1.0"
edition = "2021"
publish = false

[dependencies]
anyhow = "*"
arboard = "*"
base64 = "*"
clap = { version = "*", features = ["derive"] }
image = { version = "*", default-features = false, features = ["bmp"] }
