[package]
name = "evm"
version = "0.1.0"
edition = "2021"
publish = false

[dependencies]
ruint = "1"
hex = "0.4"
clap = { version = "4", features = ["derive"] }
