[package]
name = "crypto"
version = "0.1.0"
edition = "2021"
publish = false

[dependencies]
aes-gcm = "0.10"
rsa = "0.9"
rand = "0.8"
clap = { version = "4", features = ["derive"] }
