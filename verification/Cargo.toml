[package]
name = "relayctl"
version = "0.1.0"
edition = "2021"
publish = false

[dependencies]
axum = "*"
futures = "*"
reqwest = { version = "*", default-features = false }
serde = { version = "*", features = ["derive"] }
serde_json = "*"
tokio = { version = "*", features = ["macros", "rt-multi-thread", "sync", "time", "net"] }
tower-http = { version = "*", features = ["fs"] }
