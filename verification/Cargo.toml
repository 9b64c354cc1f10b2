[package]
name = "book2pdf"
version = "0.1.0"
edition = "2021"
publish = false

[dependencies]
anyhow = "*"
chromiumoxide = { version = "*", default-features = false, features = ["tokio-runtime"] }
clap = { version = "*", features = ["derive"] }
colored = "*"
futures-util = "*"
lopdf = "*"
scraper = "*"
serde_json = "*"
slug = "*"
tokio = { version = "*", features = ["rt-multi-thread", "macros", "fs", "time"] }
tracing = "*"
tracing-subscriber = { version = "*", features = ["env-filter"] }
url = "*"
