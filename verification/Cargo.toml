[package]
name = "epar"
version = "0.1.0"
edition = "2021"
publish = false

[dependencies]
anyhow = "1"
config-file = "*"
imap = "2"
native-tls = "0.2"
rpassword = "7"
serde = { version = "1", features = ["derive"] }
zeroize = { version = "1", features = ["derive"] }
