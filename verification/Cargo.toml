[package]
name = "sodglumate"
version = "0.1.0"
edition = "2021"
publish = false

[dependencies]
indexmap = "*"
tokio = { version = "*", features = ["sync", "rt-multi-thread", "macros"] }
rand = "*"
reqwest = { version = "*", default-features = false, features = ["rustls-tls"] }
serde = { version = "*", features = ["derive"] }
serde_json = "*"
anyhow = "*"
log = "*"
env_logger = "*"
image = { version = "*", default-features = false, features = ["jpeg", "png", "gif", "webp"] }
