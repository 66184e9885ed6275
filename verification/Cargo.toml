[package]
name = "bcdf"
version = "0.1.0"
edition = "2021"
publish = false

[dependencies]
fuzzt = "=0.3.1"
unicode-normalization = "=0.1.25"
anyhow = "*"
chrono = "=0.4.45"
clap = { version = "=4.6.7", features = ["derive"] }
futures = "*"
id3 = { version = "=1.17.2", features = ["tokio"] }
reqwest = { version = "=0.12.28", default-features = false }
rspotify = { version = "=0.16.1", default-features = false, features = ["cli", "client-reqwest"] }
rss = "=2.1.2"
scraper = "=0.27.0"
serde = { version = "*", features = ["derive"] }
serde_json = "*"
tokio = { version = "=1.53.2", features = ["macros", "rt-multi-thread", "fs", "io-util"] }
tracing = "*"
tracing-subscriber = "*"
