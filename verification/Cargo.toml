[package]
name = "relay_chat"
version = "0.1.0"
edition = "2021"
publish = false

[dependencies]
aes-gcm = "0.10"
sha3 = "0.10"
x25519-dalek = "2"
rsa = "0.9"
rand = "0.8"
rand_core = { version = "0.6", features = ["getrandom"] }
tokio = { version = "1", features = ["net", "rt-multi-thread", "macros", "sync", "io-util", "time"] }
