[package]
name = "transport_core"
version = "0.1.0"
edition = "2021"
publish = false

[dependencies]
serde = { version = "*", features = ["derive"] }
serde_json = "*"
thiserror = "*"
lru = "*"
sled = "*"
rayon = "*"
ringbuf = "0.3"
tokio = { version = "*", features = ["sync"], default-features = false }
cpal = "*"
