[package]
name = "wpdiff"
version = "0.1.0"
edition = "2021"
publish = false

[dependencies]
anyhow = "1"
clap = { version = "4", features = ["derive"] }
colored = "2"
env_logger = "0.11"
glob-match = "0.2"
indicatif = "0.17"
inquire = "0.7"
log = "0.4"
mpatch = "*"
rayon = "1"
regex = "1"
reqwest = { version = "0.12", default-features = false, features = ["blocking", "json", "rustls-tls"] }
serde = { version = "1", features = ["derive"] }
serde_json = "1"
similar = "2"
tempfile = "3"
terminal_size = "0.4"
walkdir = "2"
zip = { version = "2", default-features = false, features = ["deflate"] }
