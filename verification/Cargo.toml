[package]
name = "revolut-trading"
version = "0.1.0"
edition = "2021"
publish = false

[dependencies]
base64 = "=0.22.1"
ed25519-dalek = { version = "=2.2.0", features = ["pkcs8"] }
serde = { version = "=1.0.229", features = ["derive"] }
serde_json = "=1.0.154"
reqwest = { version = "=0.12.28", default-features = false, features = ["blocking", "json", "rustls-tls"] }
hyper-util = "=0.1.17"
uuid = { version = "=1.29.0", features = ["v4"] }
ctrlc = "=3.5.2"
dotenvy = "=0.15.7"
