[package]
name = "app-core"
version = "0.1.0"
edition = "2021"
publish = false

[dependencies]
base64 = "0.22"
blake3 = "1"
lofty = "0.22"
rand = "0.9"
serde = { version = "1", features = ["derive"] }
serde_json = "1"
tiny_http = "0.12"
tracing = "0.1"
ureq = { version = "3", features = ["json"] }
urlencoding = "2"
walkdir = "2"
