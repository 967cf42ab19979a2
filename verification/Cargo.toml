[package]
name = "paseto_tokens"
version = "0.1.0"
edition = "2021"
publish = false

[dependencies]
base64 = "0.22"
chrono = "0.4"
ed25519-dalek = "2"
