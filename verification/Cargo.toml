[package]
name = "tiny_adnl"
version = "0.1.0"
edition = "2021"
publish = false

[dependencies]
aes = { version = "0.7", features = ["ctr"] }
anyhow = "1"
async-trait = "0.1"
curve25519-dalek = "3"
dashmap = "5"
everscale-crypto = "*"
generic-array = "0.14"
rand = "0.8"
raptorq = "1"
sha2 = "0.10"
thiserror = "1"
tl-proto = "*"
x25519-dalek = "1"
