[package]
name = "fancytexty"
version = "0.1.0"
edition = "2021"
publish = false

[dependencies]
regex = "1"
serde = { version = "1", features = ["derive"] }
serde_json = "1"
dirs = "*"
rfd = { version = "*", default-features = false }
tauri = { version = "2", default-features = false, features = ["wry"] }
