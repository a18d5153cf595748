[package]
name = "nova_agent"
version = "0.1.0"
edition = "2021"
publish = false

[dependencies]
adk-rust = { version = "=2.3.0", features = ["minimal", "tools", "mcp", "mcp-http", "openai", "deepseek", "ollama", "anthropic"] }
anyhow = "=1.0.104"
async-stream = "=0.3.6"
axum = "=0.8.9"
chrono = "=0.4.45"
futures = "=0.3.34"
rusqlite = { version = "=0.41.1", features = ["bundled"] }
serde = { version = "=1.0.229", features = ["derive"] }
serde_json = "=1.0.154"
tokio = { version = "=1.54.1", features = ["full"] }
tokio-stream = "=0.1.19"
toml = "=1.1.8"
tracing = "=0.1.44"
tracing-subscriber = { version = "=0.3.23", features = ["env-filter"] }
uuid = { version = "=1.29.0", features = ["v4"] }
