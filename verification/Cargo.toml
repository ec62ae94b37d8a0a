[package]
name = "direct_authenticator"
version = "0.1.0"
edition = "2021"
publish = false

[dependencies]
serde_json = "=1.0.151"
lru = { version = "=0.18.5", default-features = false }
rand = "=0.8.8"
hex = "=0.4.3"

[dev-dependencies]
minicbor = { version = "=2.3.0", features = ["std"] }
