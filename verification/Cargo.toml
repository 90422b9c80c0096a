[package]
name = "specter"
version = "0.1.0"
edition = "2021"
publish = false

[dependencies]
curve25519-dalek = "4"
sha2 = "0.10"
sha3 = "0.10"
rand = "0.8"
rand_core = { version = "0.6", features = ["getrandom"] }
zeroize = "1"
subtle = "2"
chacha20poly1305 = "0.10"
argon2 = "0.5"
hex = "0.4"
libc = "0.2"
num-bigint = "0.4"
num-integer = "0.1"
num-traits = "0.2"
thiserror = "1"
ml-kem = "0.2"
