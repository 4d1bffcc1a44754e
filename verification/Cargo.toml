[package]
name = "wireguard_core"
version = "0.1.0"
edition = "2021"
publish = false

[dependencies]
blake2 = "0.10"
chacha20poly1305 = "0.10"
hmac = "0.12"
x25519-dalek = { version = "2", features = ["static_secrets", "reusable_secrets"] }
