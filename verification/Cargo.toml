[package]
name = "nupkgd"
version = "0.1.0"
edition = "2021"
publish = false

[dependencies]
anyhow = "1"
axum = "0.8"
chrono = { version = "0.4", default-features = false, features = ["clock", "std"] }
clap = { version = "4", features = ["derive"] }
fuzzy-matcher = "0.3"
notify = "*"
roxmltree = "*"
serde = { version = "1", features = ["derive"] }
tokio = { version = "1", features = ["full"] }
tokio-util = { version = "0.7", features = ["io"] }
walkdir = "2"
zip = { version = "*", default-features = false, features = ["deflate"] }
