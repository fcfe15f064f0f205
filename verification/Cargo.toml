[package]
name = "onepass"
version = "0.3.0"
edition = "2021"
publish = false

[dependencies]
chacha20poly1305 = "0.10"
hmac-sha256 = "*"
rand = "0.8"
rpassword = "*"
ctrlc = "3"
clipboard = "*"
