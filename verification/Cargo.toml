[package]
name = "autocheck"
version = "0.1.0"
edition = "2021"
publish = false

[dependencies]
regex = "=1.13.1"
serde_json = "=1.0.154"
similar = "=2.7.0"
serde = { version = "1", features = ["derive"] }
agentix = { version = "=0.31.0", features = ["mcp-server"] }
async-stream = "0.3"
async-trait = "0.1"
futures = "0.3"
reqwest = "=0.13.5"
tokio = { version = "=1.54.1", features = ["full"] }
