[package]
name = "tokio-console"
version = "0.1.0"
edition = "2021"
publish = false

[dependencies]
console-api = { version = "*", default-features = false }
ratatui = { version = "0.26", default-features = false }
