[package]
name = "folder_sync"
version = "0.1.0"
edition = "2021"
publish = false

[dependencies]
anyhow = "*"
home = "*"
serde = { version = "*", features = ["derive"] }
serde_yaml = "*"
