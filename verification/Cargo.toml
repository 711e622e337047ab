[package]
name = "automancy"
version = "0.1.0"
edition = "2021"
publish = false

[dependencies]
chrono = "0.4"
hashbrown = "0.14"
ractor = "*"
ron = "0.8"
serde = { version = "1", features = ["derive"] }
serde_json = "1"
tokio = { version = "1", features = ["rt", "rt-multi-thread", "sync"] }
winit = "0.29"
yakui = "*"
zstd = "0.13"
