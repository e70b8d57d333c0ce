[package]
name = "checkpoint_verifier"
version = "0.1.0"
edition = "2021"
publish = false

[dependencies]
tokio = { version = "1", features = ["sync"] }
tower = "0.5"
serde = { version = "1", features = ["derive"] }
hex = { version = "0.4", features = ["serde"] }
chrono = "0.4"
