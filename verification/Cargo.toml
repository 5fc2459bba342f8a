[package]
name = "hku_moodle_helper"
version = "0.1.0"
edition = "2021"
publish = false

[dependencies]
keyring = "3"
reqwest = "0.12"
serde = { version = "1", features = ["derive"] }
serde_json = "1"
url = "2"
