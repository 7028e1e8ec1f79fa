[package]
name = "pchain_types"
version = "0.2.0"
edition = "2021"
publish = false

[dependencies]
base64 = "0.13"
ed25519-dalek = "1"
sha2 = "0.9"
