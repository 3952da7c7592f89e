[package]
name = "wusic"
version = "0.1.0"
edition = "2021"
publish = false

[dependencies]
bincode = "=1.3.3"
blake3 = "=1.8.7"
bliss-audio = { version = "=0.4.4", features = ["serde"] }
clap = "=2.34.0"
ffmpeg-next = "=4.4.0"
half = "=1.8.3"
requestty = "=0.1.3"
rust-fuzzy-search = "=0.1.1"
serde = { version = "=1.0.229", features = ["derive"] }
serde_json = "=1.0.154"
sled = "=0.34.7"
walkdir = "=2.5.0"
