[package]
name = "einvoice"
version = "0.1.0"
edition = "2021"
publish = false

[dependencies]
axum = "0.8"
compact_str = "0.8"
http-body = "1"
http-body-util = "0.1"
quick-xml = { version = "0.37", features = ["serialize"] }
serde_json = "1"
socket2 = "0.5"
tokio = { version = "1", features = ["rt-multi-thread", "net", "signal", "sync", "time", "macros"] }
toml = "0.8"
tower-http = { version = "0.6", features = ["timeout"] }
