[package]
name = "insights"
version = "0.1.0"
edition = "2021"
publish = false

[dependencies]
anyhow = "*"
axum = "*"
chrono = { version = "*", features = ["serde"] }
clap = { version = "*", features = ["derive"] }
colored = "*"
dirs = "*"
once_cell = "*"
serde = { version = "*", features = ["derive"] }
serde_json = "*"
serde_yaml = "*"
tokio = { version = "*", features = ["full"] }
tower = "*"
tower-http = { version = "*", features = ["cors", "trace"] }
url = "*"
uuid = { version = "*", features = ["v4"] }
