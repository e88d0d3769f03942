[package]
name = "gh0st"
version = "0.1.0"
edition = "2021"
publish = false

[dependencies]
chrono = "*"
clap = { version = "*", features = ["derive"] }
crossterm = "*"
csv = "*"
flate2 = "*"
ratatui = "*"
reqwest = { version = "*", default-features = false, features = ["json", "rustls-tls"] }
scraper = "*"
serde = { version = "*", features = ["derive"] }
serde_json = "*"
tar = "*"
tokio = { version = "*", features = ["rt-multi-thread", "macros", "time", "sync"] }
url = "*"
zip = { version = "*", default-features = false, features = ["deflate"] }
