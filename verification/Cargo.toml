[package]
name = "mattermost"
version = "0.1.0"
edition = "2021"
publish = false

[dependencies]
url = "2"
serde = { version = "1", features = ["derive"] }
serde_json = "1"
reqwest = { version = "0.12", default-features = false, features = ["json", "cookies", "rustls-tls"] }
rmp-serde = "1"
thiserror = "2"
tokio = { version = "1", features = ["rt-multi-thread"] }
anyhow = "1"
log = "0.4"
keyring = "3"
directories = "6"
simple_logger = "5"
