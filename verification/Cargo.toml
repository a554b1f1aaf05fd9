[package]
name = "psfsp"
version = "0.1.0"
edition = "2021"
publish = false

[dependencies]
blake3 = "1"
indicatif = "0.17"
rcgen = { version = "0.14", default-features = false, features = ["pem", "ring"] }
rustls = { version = "0.23", default-features = false, features = ["ring", "std", "tls12", "logging"] }
rustls-pemfile = "2"
rustls-pki-types = "1"
