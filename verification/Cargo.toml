[package]
name = "radar"
version = "0.1.0"
edition = "2021"
publish = false

[dependencies]
base64 = "0.13"
pcre2 = "*"
tokio = { version = "1", features = ["full"] }
futures = "0.3"
native-tls = "0.2"
tokio-native-tls = "0.3"
csv-async = { version = "1", features = ["tokio"] }
clap = { version = "4", features = ["derive"] }
serde = { version = "1", features = ["derive"] }
serde_json = "1"
tracing = "0.1"
tracing-subscriber = "0.3"
