[package]
name = "sonder"
version = "0.1.0"
edition = "2021"
publish = false

[dependencies]
regex = "1"
syn = "2"
strum = { version = "*", features = ["derive"] }
lang-c = "*"
