[package]
name = "king_network_tools"
version = "0.1.0"
edition = "2021"
publish = false

[dependencies]
regex = "1"
serde = { version = "1", features = ["derive"] }
serde_json = "1"
chrono = "0.4"
ureq = "3"
tokio = { version = "1", features = ["rt", "rt-multi-thread"] }
