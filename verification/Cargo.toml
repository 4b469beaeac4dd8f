[package]
name = "lat"
version = "0.1.0"
edition = "2021"
publish = false

[dependencies]
serde_json = "1"
serde = { version = "1", features = ["derive"] }
rusqlite = { version = "*", features = ["bundled"] }
rmcp = { version = "*", features = ["server", "macros", "transport-io", "transport-streamable-http-server"] }
tokio = { version = "1", features = ["full"] }
axum = "*"
anyhow = "1"
dirs = "*"
tracing = "0.1"
tracing-subscriber = { version = "0.3", features = ["env-filter"] }
