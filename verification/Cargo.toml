[package]
name = "roombook"
version = "0.1.0"
edition = "2021"
publish = false

[dependencies]
accept-language = "*"
chrono = "0.4"
