[package]
name = "listcheck"
version = "0.1.0"
edition = "2021"
publish = false

[dependencies]
reqwest = { version = "=0.12.28", default-features = false, features = ["blocking", "rustls-tls"] }
hyper = "=0.10.16"
serde_json = "*"
