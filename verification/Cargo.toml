[package]
name = "vix"
version = "0.1.0"
edition = "2021"
publish = false

[dependencies]
crc32fast = "=1.5.4"
dashmap = "=6.2.1"
rmp-serde = "=1.3.1"
fastbloom = "=0.17.0"
rpds = "=1.2.1"
uuid = { version = "=1.29.1", features = ["v4"] }
serde = { version = "=1.0.229", features = ["derive"] }
serde_json = "=1.0.154"
thiserror = "=2.0.21"
dotenvy = "=0.15.7"
config = { version = "=0.15.27", default-features = false, features = ["json"] }
