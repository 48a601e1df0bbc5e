[package]
name = "playback"
version = "0.1.0"
edition = "2021"
publish = false

[dependencies]
chrono = "*"
serde_json = "*"
reqwest = { version = "*", default-features = false }
tokio = { version = "*", features = ["rt-multi-thread", "macros", "time"] }
clap = "*"
