[package]
name = "malscan"
version = "0.4.0"
edition = "2021"
publish = false

[dependencies]
regex = "1"
md-5 = "0.10"
sha2 = "0.10"
serde = { version = "1", features = ["derive"] }
serde_json = "1"
anyhow = "1"
clap = { version = "4", features = ["derive"] }
walkdir = "2"
reqwest = { version = "0.12", default-features = false, features = ["blocking", "json", "rustls-tls"] }
