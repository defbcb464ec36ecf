[package]
name = "les_core"
version = "0.1.0"
edition = "2021"
publish = false

[dependencies]
sled = "*"
globset = "*"
regex = "*"
serde = { version = "*", features = ["derive"] }
serde_json = "*"
clap = { version = "*", features = ["derive"] }
notify = "*"
walkdir = "*"
chrono = "*"
tokio = { version = "*", features = ["rt-multi-thread", "macros", "signal"] }
anyhow = "*"
