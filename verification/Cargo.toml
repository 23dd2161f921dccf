[package]
name = "anksidian"
version = "0.1.0"
edition = "2021"
publish = false

[dependencies]
blake3 = { version = "1", features = ["serde"] }
env_logger = "0.11"
log = "0.4"
regex = "1"
serde = { version = "1", features = ["derive"] }
serde_json = "1"
serde_regex = "1"
thiserror = "2"
ureq = { version = "3", features = ["json"] }
