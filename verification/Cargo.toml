[package]
name = "management"
version = "0.1.0"
edition = "2021"
publish = false

[dependencies]
base64 = "=0.13.1"
prost = { version = "=0.11.9", default-features = false, features = ["std"] }
futures = "=0.3.34"
async-std = "=1.13.2"
async-trait = "=0.1.92"
curve25519-parser = "=0.4.0"
libp2p = { version = "0.55", default-features = false, features = ["async-std", "gossipsub", "macros", "mdns", "noise", "request-response", "tcp", "yamux"] }
