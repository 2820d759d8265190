[package]
name = "cineteca"
version = "0.1.0"
edition = "2021"
publish = false

[dependencies]
cursive = "*"
ffmpeg-next = "*"
rayon = "1"
serde = { version = "1", features = ["derive"] }
serde_json = "1"
walkdir = "2"
