[package]
name = "claude_image_proxy"
version = "0.1.0"
edition = "2021"
publish = false

[dependencies]
png = "0.17"
sha2 = "0.10"
base64 = "0.22"
dashmap = "6"
serde = { version = "1", features = ["derive"] }
serde_json = "1"
ab_glyph = "0.2"
anyhow = "1"
axum = "0.7"
reqwest = { version = "0.12", default-features = false, features = ["rustls-tls"] }
tokio = { version = "1", features = ["macros", "rt-multi-thread", "net"] }
clap = { version = "4", features = ["derive"] }
tracing = "0.1"
tracing-subscriber = { version = "0.3", features = ["env-filter"] }
