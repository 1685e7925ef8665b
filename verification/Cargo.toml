[package]
name = "poker-banting-server"
version = "0.1.0"
edition = "2021"
publish = false

[dependencies]
async-trait = "0.1"
axum = { version = "0.8", features = ["ws"] }
dashmap = "6"
dotenv = "0.15"
futures-util = { version = "0.3", features = ["sink"] }
rand = "0.8"
redis = { version = "0.27", features = ["tokio-comp", "aio"] }
serde = { version = "1", features = ["derive"] }
serde_json = "1"
tokio = { version = "1", features = ["rt-multi-thread", "macros", "net", "sync", "time"] }
tower-http = { version = "0.6", features = ["cors"] }
