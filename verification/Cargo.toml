[package]
name = "replay_core"
version = "0.1.0"
edition = "2021"
publish = false

[dependencies]
anyhow = "*"
axum = "*"
base64 = "*"
bzip2 = "*"
dashmap = "*"
dotenvy = "*"
once_cell = "*"
regex = "*"
reqwest = { version = "*", default-features = false, features = ["rustls-tls"] }
serde = { version = "*", features = ["derive"] }
serde_json = "*"
tokio = { version = "*", features = ["rt-multi-thread", "macros", "net", "sync"] }
tower-http = { version = "*", features = ["compression-gzip"] }
tracing = "*"
tracing-subscriber = "*"
