[package]
name = "client_addr"
version = "0.1.0"
edition = "2021"
publish = false

[dependencies]
rocket = "*"
