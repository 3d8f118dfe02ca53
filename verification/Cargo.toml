[package]
name = "ironstream"
version = "0.1.0"
edition = "2021"
publish = false

[dependencies]
axum = { version = "*", features = ["ws"] }
chrono = "*"
futures-util = "*"
reqwest = { version = "*", default-features = false, features = ["json"] }
serde = { version = "*", features = ["derive"] }
serde_json = "*"
tinyrand = "*"
tinyrand-std = "*"
tokio = { version = "*", features = ["rt-multi-thread", "macros", "net", "time", "sync"] }
