[package]
name = "rsass"
version = "0.1.0"
edition = "2021"
publish = false

[dependencies]
rss = "*"
uuid = { version = "*", features = ["v4"] }
reqwest = { version = "*", default-features = false }
tokio = { version = "*", features = ["rt-multi-thread"] }
futures = "*"
rusqlite = { version = "*", features = ["bundled"] }
clap = "*"
serde = { version = "*", features = ["derive"] }
serde_json = "*"
toml = "*"
quick-xml = "*"
web-view = "*"
