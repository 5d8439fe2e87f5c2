[package]
name = "jarvis_core"
version = "0.1.0"
edition = "2021"
publish = false

[dependencies]
serde = { version = "=1.0.229", features = ["derive"] }
serde_json = "=1.0.154"
reqwest = { version = "=0.13.5", default-features = false, features = ["json", "stream"] }
futures-util = "=0.3.34"
hound = "=3.5.1"
once_cell = "=1.21.4"
parking_lot = "=0.13.0"
rustpotter = "=3.0.2"
half = "=2.4.1"
vosk = "=0.3.1"
