[package]
name = "qeli"
version = "0.1.0"
edition = "2021"
publish = false

[dependencies]
ipnet = "=2.12.2"
serde_json = "=1.0.154"
serde = { version = "=1.0.229", features = ["derive"] }
tokio = { version = "=1.54.1", features = ["net", "time", "io-util", "rt", "sync", "macros"] }
anyhow = "=1.0.104"
log = "=0.4.35"
socket2 = { version = "=0.6.5", features = ["all"] }
libc = "=0.2.191"
rand = "=0.9.5"
