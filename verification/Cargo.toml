[package]
name = "crypto_price"
version = "0.1.0"
edition = "2021"
publish = false

[dependencies]
chrono = { version = "0.4", default-features = false, features = ["std"] }
ureq = { version = "2", default-features = false, features = ["tls"] }
