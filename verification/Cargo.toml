[package]
name = "tfhe_regex"
version = "0.1.0"
edition = "2021"
publish = false

[dependencies]
regex-syntax = "0.6"
tfhe = { version = "0.2", features = ["shortint", "x86_64-unix"] }
