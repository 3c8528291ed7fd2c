[package]
name = "dkim_verifier"
version = "0.1.0"
edition = "2021"
publish = false

[dependencies]
base64 = "0.21"
ed25519-dalek = "2"
mailparse = "*"
rsa = "0.9"
serde = { version = "1", features = ["derive"] }
serde_json = "1"
sha1 = { version = "0.10", features = ["oid"] }
sha2 = { version = "0.10", features = ["oid"] }
sp1-zkvm = "*"
