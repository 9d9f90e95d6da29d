[package]
name = "anetd"
version = "0.1.0"
edition = "2021"
publish = false

[dependencies]
arc-swap = "1"
base64 = "0.22"
daemonize = "0.5"
hex = "0.4"
inotify = "0.11"
libc = "0.2"
log = "0.4"
serde = { version = "1", features = ["derive"] }
sha2 = "0.10"
tokio = { version = "1", features = ["full"] }
tokio-stream = "0.1"
toml = "0.8"
tracing = "0.1"
tracing-appender = "0.2"
tracing-subscriber = { version = "0.3", features = ["env-filter"] }
