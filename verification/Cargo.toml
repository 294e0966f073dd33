[package]
name = "theca"
version = "0.1.0"
edition = "2021"
publish = false

[dependencies]
aes = "0.8"
cbc = { version = "0.1", features = ["alloc", "block-padding"] }
sha2 = "0.10"
pbkdf2 = "0.12"
hmac = "0.12"
rand = "0.8"
time = "0.1"
rust-crypto = "0.2"
libc = "0.2"
term = "0.7"
tempdir = "0.3"
docopt = "1"
serde = { version = "1", features = ["derive"] }
regex = "1"
