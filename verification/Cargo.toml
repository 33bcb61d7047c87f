[package]
name = "wgstack"
version = "0.1.0"
edition = "2021"
publish = false

[dependencies]
ahash = "0.8"
blake2 = "0.10"
chacha20poly1305 = "0.10"
ctrlc = "3"
hashbrown = "0.14"
hmac = "0.12"
humantime = "2"
libc = "0.2"
log = "0.4"
nu-ansi-term = "*"
rand = "0.8"
stakker = "0.2"
tai64 = "4"
x25519-dalek = { version = "2", features = ["static_secrets", "getrandom"] }
