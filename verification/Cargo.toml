[package]
name = "airwave"
version = "0.1.0"
edition = "2021"
publish = false

[dependencies]
quick-xml = "=0.37.5"
httpdate = "=1.0.3"
percent-encoding = "=2.3.2"
url = "=2.5.8"
roxmltree = "=0.21.2"
rand = "=0.9.5"
tokio = { version = "=1.54.1", features = ["full"] }
axum = "=0.8.9"
tower-http = { version = "=0.7.1", features = ["trace"] }
serde = { version = "=1.0.229", features = ["derive"] }
serde_json = "=1.0.154"
toml = "=1.1.8"
lofty = "=0.25.5"
walkdir = "=2.5.0"
mime_guess = "=2.0.5"
rusqlite = { version = "=0.41.1", features = ["bundled"] }
uuid = { version = "=1.29.0", features = ["v5"] }
tracing = "=0.1.44"
tracing-subscriber = { version = "=0.3.23", features = ["env-filter"] }
local-ip-address = "=0.6.13"
socket2 = { version = "=0.6.5", features = ["all"] }
tokio-util = { version = "=0.7.20", features = ["io"] }
tokio-stream = { version = "=0.1.19", features = ["sync"] }
futures-core = "=0.3.34"
reqwest = { version = "=0.12.28", default-features = false, features = ["json", "rustls-tls"] }
dashmap = "=6.2.1"
parking_lot = "=0.12.5"
thiserror = "=2.0.21"
