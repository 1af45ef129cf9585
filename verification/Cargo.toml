[package]
name = "bored_browser"
version = "0.1.0"
edition = "2021"
publish = false

[dependencies]
flate2 = "1"
sha2 = "0.10"
openssl = "0.10"
log = "0.4"
