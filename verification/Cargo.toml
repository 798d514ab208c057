[package]
name = "bifrost_drive"
version = "0.1.0"
edition = "2021"
publish = false

[dependencies]
uuid = { version = "=1.29.0", features = ["v4"] }
sha2 = "=0.10.9"
hex = "=0.4.3"
serde = { version = "=1.0.229", features = ["derive"] }
serde_json = "=1.0.154"
thiserror = "=2.0.21"
url = "2"
quick-xml = "0.38"
chrono = { version = "0.4", default-features = false, features = ["alloc"] }
