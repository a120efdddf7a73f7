[package]
name = "sheesy_vault"
version = "0.1.0"
edition = "2021"
publish = false

[dependencies]
clap = "2"
conv = "0.3"
failure = "0.1"
glob = "*"
gpgme = "*"
lazy_static = "1"
mktemp = "*"
serde = { version = "1", features = ["derive"] }
serde_yaml = "*"
