[package]
name = "cryptopipe"
version = "0.1.0"
edition = "2021"
publish = false

[dependencies]
argon2 = "*"
chacha20 = { version = "*", features = ["legacy"] }
poly1305 = "*"
hmac = "*"
sha2 = "*"
subtle = "*"
zeroize = "*"
getrandom = "*"
