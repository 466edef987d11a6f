[package]
name = "heard_it"
version = "0.1.0"
edition = "2021"
publish = false

[dependencies]
serde_json = "1"
cpal = "0.15"
tokio = { version = "1", features = ["rt-multi-thread", "macros", "sync", "io-util", "process", "time", "net"] }
tokio-tungstenite = "0.21"
futures-util = "0.3"
http = "1"
url = "2"
dotenvy = "0.15"
reqwest = { version = "0.12", default-features = false, features = ["json"] }
