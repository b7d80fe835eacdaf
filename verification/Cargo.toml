[package]
name = "notestore"
version = "0.1.0"
edition = "2021"
publish = false

[dependencies]
regex = "1"
serde = { version = "1", features = ["derive"] }
serde_json = "1"
slint = { version = "1", default-features = false, features = ["std", "compat-1-2"] }
rfd = "*"
