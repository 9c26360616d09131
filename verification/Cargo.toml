[package]
name = "feedwatch"
version = "0.1.0"
edition = "2021"
publish = false

[dependencies]
chrono = "=0.4.45"
fast_html2md = "*"
poise = "=0.6.2"
quick-xml = "=0.37.5"
reqwest = { version = "=0.12.28", features = ["json"] }
serde = { version = "=1.0.229", features = ["derive"] }
shuttle-runtime = "=0.57.0"
shuttle-serenity = "=0.57.0"
tokio = { version = "=1.54.1", features = ["rt-multi-thread", "time", "macros"] }
