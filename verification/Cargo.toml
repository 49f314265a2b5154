[package]
name = "nami_core"
version = "0.1.0"
edition = "2021"
publish = false

[dependencies]
base64 = "*"
blake3 = "*"
ed25519-dalek = "*"
regex = "*"
serde = { version = "*", features = ["derive"] }
serde_json = "*"
thiserror = "*"
url = "*"
tatara-lisp = "*"
