[package]
name = "http_gateway"
version = "0.1.0"
edition = "2021"
publish = false

[dependencies]
bytes = "1"
dotenvy = "0.15"
futures = "0.3"
hyper = { version = "1", features = ["server", "http1"] }
infer = "*"
serde = { version = "1", features = ["derive"] }
serde_json = "1"
tokio = { version = "1", features = ["rt", "net", "io-util", "sync", "fs"] }
tracing = "0.1"
tracing-subscriber = "0.3"
url = "2"
urlencoding = "2"
uuid = { version = "1", features = ["v7"] }
