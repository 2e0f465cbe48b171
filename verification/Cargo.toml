[package]
name = "mdbook_chart"
version = "0.1.0"
edition = "2021"
publish = false

[dependencies]
uuid = { version = "1", features = ["v4"] }
mdbook = { version = "0.4", default-features = false }
clap = "2"
serde_json = "1"
anyhow = "1"

[dev-dependencies]
regex = "1"
