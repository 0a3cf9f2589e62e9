[package]
name = "brongnal"
version = "0.1.0"
edition = "2021"
publish = false

[dependencies]
ed25519-dalek = { version = "=2.2.0", features = ["rand_core"] }
x25519-dalek = { version = "=2.0.1", features = ["static_secrets"] }
blake2 = "=0.10.6"
sha2 = "=0.10.9"
hkdf = "=0.12.4"
chacha20poly1305 = "=0.10.1"
rand_core = { version = "=0.6.4", features = ["getrandom"] }
base64 = "=0.22.1"
hex = "=0.4.3"
chrono = { version = "0.4", default-features = false, features = ["alloc", "std"] }
serde = { version = "1", features = ["derive"] }
serde_json = "1"
reqwest = { version = "0.12", default-features = false, features = ["blocking", "json", "rustls-tls"] }
jsonwebtoken = "9"
