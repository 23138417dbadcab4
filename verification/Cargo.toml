[package]
name = "chat_router"
version = "0.1.0"
edition = "2021"
publish = false

[dependencies]
tokio = { version = "*", features = ["rt-multi-thread", "macros", "net", "sync", "time"] }
tokio-tungstenite = "*"
tungstenite = "*"
futures-util = "*"

[dev-dependencies]
serde_json = "*"
