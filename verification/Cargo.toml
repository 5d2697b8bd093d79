[package]
name = "trade_robot"
version = "0.1.0"
edition = "2021"
publish = false

[dependencies]
sha1 = "=0.10.7"
sha2 = "=0.10.9"
hex = "=0.4.3"
md5 = "=0.7.0"
serde = { version = "=1.0.229", features = ["derive"] }
serde_json = "=1.0.154"
chrono = { version = "=0.4.45", features = ["serde"] }
anyhow = "=1.0.104"
uuid = { version = "=1.29.0", features = ["v4", "serde"] }
tokio = { version = "=1.54.1", features = ["rt", "rt-multi-thread", "macros", "fs", "net", "io-util", "sync", "time"] }
keyring = "=3.6.3"
csv = "=1.4.0"
rusqlite = { version = "=0.41.1", features = ["bundled"] }
directories = "=6.0.0"
