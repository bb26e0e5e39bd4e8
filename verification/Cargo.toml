[package]
name = "msglog"
version = "0.1.0"
edition = "2021"
publish = false

[dependencies]
chrono = "*"
crdts = "*"
magic-crypt = "*"
serde = { version = "*", features = ["derive"] }
serde_json = "*"
