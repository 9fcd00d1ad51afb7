[package]
name = "tournament_core"
version = "0.1.0"
edition = "2021"
publish = false

[dependencies]
uuid = { version = "=1.27.0", features = ["v4", "serde"] }
serde = { version = "=1.0.229", features = ["derive"] }
serde_json = "=1.0.151"
rocket = { version = "=0.5.1", features = ["json"] }
tokio = { version = "=1.53.2", features = ["sync", "rt-multi-thread", "macros"] }
once_cell = "=1.21.4"
