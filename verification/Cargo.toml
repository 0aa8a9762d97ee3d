[package]
name = "multi_read"
version = "0.1.0"
edition = "2021"

[dependencies]
io-uring = "*"
