[package]
name = "quantum_crypto_engine"
version = "0.1.0"
edition = "2021"
publish = false

[dependencies]
anyhow = "1"
clap = { version = "4", features = ["derive"] }
cpal = "0.15"
ed25519-dalek = "2"
hex = "0.4"
nokhwa = { version = "0.10", features = ["input-native"] }
sha3 = "0.10"
zeroize = "1"
