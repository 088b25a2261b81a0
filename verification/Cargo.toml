[package]
name = "whisper_job_manager"
version = "0.1.0"
edition = "2021"
publish = false

[dependencies]
uuid = { version = "*", features = ["v4", "serde"] }
chrono = { version = "*", features = ["serde"] }
serde = { version = "*", features = ["derive"] }
serde_json = "*"
log = "*"
env_logger = "*"
anyhow = "*"
tokio = { version = "*", features = ["process", "sync", "macros", "rt-multi-thread", "fs", "time", "io-util"] }
actix-web = { version = "*", default-features = false, features = ["macros"] }
actix-files = "*"
