[package]
name = "mcp_response_cache_policy"
version = "0.1.0"
edition = "2021"
publish = false

[dependencies]
anyhow = "=1.0.104"
hex = "=0.4.3"
pdk = { version = "=1.9.2", features = ["enable_stop_iteration"] }
serde = { version = "=1.0.229", features = ["derive"] }
serde_json = "=1.0.154"
sha2 = "=0.10.9"
