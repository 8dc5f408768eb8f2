[package]
name = "factorlens"
version = "0.1.0"
edition = "2021"
publish = false

[dependencies]
anyhow = "1"
chrono = "=0.4.45"
clap = { version = "4", features = ["derive"] }
csv = "1"
nalgebra = "=0.35.0"
postgres = "0.19"
postgres_rustls = "<0.1.5"
pulldown-cmark = "=0.12.2"
rustls = "0.23"
rustls-native-certs = "0.8"
rustls-pemfile = "2"
serde = { version = "1", features = ["derive"] }
serde_json = "=1.0.154"
tokio-rustls = "0.26"
toml = "0.8"
