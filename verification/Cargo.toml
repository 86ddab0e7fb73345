[package]
name = "zkauth"
version = "0.1.0"
edition = "2021"
publish = false

[dependencies]
curve25519-dalek = { version = "=4.1.3", features = ["rand_core"] }
num-bigint = { version = "=0.4.8", features = ["rand"] }
num-primes = "=0.3.0"
rand = "=0.8.8"
serde = { version = "1", features = ["derive"] }
serde_json = "1"
sha2 = "=0.10.9"
uuid = { version = "=1.27.0", features = ["v4"] }
