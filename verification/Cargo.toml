[package]
name = "sermcp"
version = "0.1.0"
edition = "2021"
publish = false

[dependencies]
chrono = "0.4"
fancy-regex = "*"
md-5 = "0.10"
notify = "*"
rand = "0.9"
regex = "1"
serde = { version = "1", features = ["derive"] }
serde_json = { version = "1", features = ["preserve_order"] }
thiserror = "*"
tokio = { version = "1", features = ["rt-multi-thread", "macros", "sync", "time"] }
tracing = "0.1"
tracing-subscriber = { version = "0.3", features = ["env-filter"] }
