[package]
name = "fxbrowser"
version = "0.1.0"
edition = "2021"
publish = false

[dependencies]
calamine = "0.30"
csv = "=1.4.0"
rodio = "0.20"
rusqlite = { version = "0.32", features = ["bundled"] }
rustfft = "6"
serde = { version = "1", features = ["derive"] }
serde_json = "1"
symphonia = { version = "0.5", features = ["all"] }
walkdir = "2"
