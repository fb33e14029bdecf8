[package]
name = "agents_rust"
version = "0.1.0"
edition = "2021"
publish = false

[dependencies]
strsim = "=0.11.1"
uuid = { version = "=1.29.0", features = ["v4"] }
base64 = "=0.23.1"
scraper = "=0.29.0"
serde = { version = "=1.0.229", features = ["derive"] }
serde_json = "=1.0.154"
serde_yaml = "=0.9.34"
chrono = "=0.4.45"
walkdir = "=2.5.0"
tokio = { version = "=1.54.1", features = ["full"] }
reqwest = { version = "=0.13.5", features = ["json", "blocking", "stream"] }
futures-util = "=0.3.34"
tokio-tungstenite = "=0.30.0"
rmcp = { version = "=3.8.0", features = ["server", "transport-io"] }
wasmtime = "=46.0.3"
tracing = "=0.1.44"
tracing-subscriber = "=0.3.23"
