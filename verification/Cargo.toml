[package]
name = "inbox_stats"
version = "0.1.0"
edition = "2021"
publish = false

[dependencies]
plotlib = "0.4.0"
serde = { version = "1.0", features = ["derive"] }
serde_json = "1.0"
