[package]
name = "fog_pack"
version = "0.1.0"
edition = "2021"
publish = false

[dependencies]
blake2b_simd = "1"
byteorder = "1"
chacha20poly1305 = "0.10"
ed25519-dalek = "2"
getrandom = "0.2"
serde = { version = "1", features = ["derive"] }
x25519-dalek = "2"
zstd-safe = "*"
