[package]
name = "ly"
version = "0.1.0"
edition = "2021"
publish = false

[dependencies]
actix-web = { version = "4", default-features = false, features = ["macros"] }
anyhow = "1"
chrono = { version = "0.4", features = ["serde"] }
clap = { version = "3", features = ["derive"] }
env_logger = "0.9"
http = "0.2"
log = "0.4"
rusqlite = { version = "0.31", features = ["bundled", "chrono"] }
serde = { version = "1", features = ["derive"] }
tokio = { version = "1", features = ["macros", "rt-multi-thread", "sync"] }
