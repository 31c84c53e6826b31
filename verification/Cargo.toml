[package]
name = "footstats"
version = "0.1.0"
edition = "2021"
publish = false

[dependencies]
anyhow = "1"
chrono = "0.4"
headless_chrome = "*"
rand = "0.8"
reqwest = { version = "0.11", default-features = false, features = ["blocking", "json"] }
rusqlite = { version = "0.31", features = ["bundled"] }
scraper = "0.19"
serde = { version = "1", features = ["derive"] }
serde_json = "1"
