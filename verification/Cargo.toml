[package]
name = "afkaracode"
version = "0.1.0"
edition = "2021"
publish = false

[dependencies]
regex = "=1.13.1"
serde = { version = "=1.0.229", features = ["derive"] }
serde_json = "=1.0.154"
toml = "=0.8.23"
dotenvy = "=0.15.7"
colored = "=2.2.0"
crossterm = "=0.27.0"
similar = "=2.7.0"
syntect = { version = "=5.3.0", default-features = false, features = ["default-fancy"] }
tokio = { version = "=1.54.1", features = ["full"] }
reqwest = { version = "=0.12.28", default-features = false, features = ["blocking", "json", "rustls-tls"] }
mlua = { version = "=0.9.9", features = ["lua54", "vendored", "serialize"] }
