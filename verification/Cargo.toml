[package]
name = "llm_spider"
version = "0.1.0"
edition = "2021"
publish = false

[dependencies]
anyhow = "*"
clap = { version = "*", features = ["derive"] }
humantime = "*"
reqwest = { version = "*", default-features = false, features = ["blocking", "json"] }
scraper = "*"
serde_json = "*"
url = "*"
