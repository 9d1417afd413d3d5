[package]
name = "tako"
version = "0.1.0"
edition = "2021"
publish = false

[dependencies]
bincode = "1.3"
bytes = "1"
futures = "0.3"
log = "0.4"
nix = { version = "0.29", features = ["resource", "user"] }
orion = "0.17"
serde = { version = "1", features = ["derive"] }
tokio = { version = "1", features = ["io-util", "sync", "time"] }
tokio-util = { version = "0.7", features = ["codec"] }
