[package]
name = "mcproxy"
version = "0.1.0"
edition = "2021"
publish = false

[dependencies]
base64 = "=0.23.1"
dashmap = "=6.2.1"
serde = { version = "=1.0.229", features = ["derive"] }
serde_json = "=1.0.151"
toml = "=1.1.7"
tokio = { version = "=1.53.2", features = ["rt-multi-thread", "net", "io-util", "time", "sync", "macros", "signal", "fs"] }
