[package]
name = "ollie"
version = "0.1.0"
edition = "2021"
publish = false

[dependencies]
serde = { version = "*", features = ["derive"] }
serde_json = "*"
uuid = { version = "*", features = ["v4"] }
reqwest = { version = "*", default-features = false, features = ["blocking", "json", "rustls-tls"] }
