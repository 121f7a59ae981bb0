[package]
name = "sed_unlock"
version = "0.1.0"
edition = "2021"
publish = false

[dependencies]
uefi = { version = "*", features = ["alloc"] }
zeroize = "*"
pbkdf2 = "0.12"
hmac = "0.12"
sha1 = "0.10"
