[package]
name = "tricoder"
version = "0.1.0"
edition = "2021"
publish = false

[dependencies]
rayon = "1"
reqwest = { version = "0.11", default-features = false, features = ["blocking", "json", "rustls-tls"] }
serde = { version = "1", features = ["derive"] }
trust-dns-resolver = "0.23"
