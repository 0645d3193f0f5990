[package]
name = "fml"
version = "0.1.0"
edition = "2021"
publish = false

[dependencies]
semver = "1"
anyhow = "1"
serde = { version = "1", features = ["derive"] }
serde_json = "1"
tokio = { version = "1", features = ["rt-multi-thread", "macros", "sync", "time"] }
reqwest = { version = "*", default-features = false, features = ["rustls-tls", "json"] }
zip = { version = "*", default-features = false, features = ["deflate"] }
fs2 = "0.4"
ratatui = "*"
