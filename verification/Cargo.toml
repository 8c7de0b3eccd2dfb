[package]
name = "backend"
version = "0.1.0"
edition = "2021"
publish = false

[dependencies]
chrono = { version = "0.4", features = ["serde"] }
uuid = { version = "1", features = ["v4", "serde"] }
rocket = { version = "0.5", features = ["json", "uuid"] }
rocket_cors = "*"
rocket-slogger = "*"
slog-term = "2"
time = { version = "0.3", features = ["formatting", "macros"] }
tokio = { version = "1", features = ["sync"] }
serde = { version = "1", features = ["derive"] }
serde_derive = "1"
