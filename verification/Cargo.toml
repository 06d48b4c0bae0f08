[package]
name = "kaxel"
version = "0.1.0"
edition = "2021"
publish = false

[dependencies]
xml = "=1.4.0"
anyhow = "=1.0.104"
