[package]
name = "cacache"
version = "0.1.0"
edition = "2021"
publish = false

[dependencies]
base64 = "=0.21.7"
ssri = "=9.2.0"
tempfile = "=3.27.0"
