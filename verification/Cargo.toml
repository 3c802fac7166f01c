[package]
name = "tmap_core"
version = "0.1.0"
edition = "2021"
publish = false

[dependencies]
regex = "1"
roxmltree = "*"
base64 = "0.22"
serde = { version = "1", features = ["derive"] }
serde_json = "1"
