[package]
name = "swal-agent"
version = "0.1.0"
edition = "2021"
publish = false

[dependencies]
serde = { version = "1", features = ["derive"] }
serde_json = "1"
tokio = { version = "1", features = ["rt-multi-thread", "macros", "net", "io-util", "time", "sync"] }
axum = { version = "0.7", features = ["ws"] }
clap = { version = "4", features = ["derive"] }
async-trait = "0.1"
dashmap = "6"
chrono = "0.4"
rusqlite = { version = "0.31", features = ["bundled"] }
schemars = "0.8"
tracing = "0.1"
