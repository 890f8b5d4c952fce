[package]
name = "ethsbell_rewrite"
version = "0.1.0"
edition = "2021"
publish = false

[dependencies]
chrono = "0.4"
regex = "1"
serde = { version = "1", features = ["derive"] }
serde_json = "1"
rand = "0.8"
base64 = "0.13"
reqwest = { version = "0.11", default-features = false, features = ["blocking", "rustls-tls"] }
structopt = "0.3"
