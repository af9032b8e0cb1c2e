[package]
name = "totpkeep"
version = "0.1.0"
edition = "2021"
publish = false

[dependencies]
base32 = "*"
oath = "*"
rand = "0.8"
rust-crypto = "0.2"
clap = "2"
