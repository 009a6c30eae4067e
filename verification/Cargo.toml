[package]
name = "yee_node"
version = "0.1.0"
edition = "2021"
publish = false

[dependencies]
blake2-rfc = "0.2"
ed25519-dalek = "*"
hex = "0.4"

[dev-dependencies]
parity-codec = "3"
