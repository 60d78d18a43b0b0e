[package]
name = "spiltixal"
version = "0.1.0"
edition = "2021"
publish = false

[dependencies]
unicode-width = "*"
portable-pty = "*"
crossbeam-channel = "*"
anyhow = "*"
