[package]
name = "maestro"
version = "0.1.0"
edition = "2021"
publish = false

[dependencies]
sha2 = "*"
hex = "*"
base64 = "*"
chrono = "*"
serde = { version = "*", features = ["derive"] }
serde_json = "*"
tokio = { version = "*", features = ["rt-multi-thread", "macros", "process", "io-util", "net", "time", "sync", "fs"] }
axum = "*"
reqwest = { version = "*", default-features = false, features = ["json"] }
