[package]
name = "tilde"
version = "0.1.0"
edition = "2021"
publish = false

[dependencies]
serde_json = "=1.0.154"
jsonschema = { version = "=0.60.2", default-features = false }
url = "=2.5.8"
uuid = { version = "=1.29.0", features = ["v5"] }
base64 = "=0.22.1"
sha2 = "=0.10.9"
rand = "=0.8.8"
chrono = { version = "=0.4.45", default-features = false, features = ["clock", "std"] }
subtle = "=2.6.1"
zeroize = "=1.9.1"
hex = "=0.4.3"
