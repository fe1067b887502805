[package]
name = "ag_gateway"
version = "0.1.0"
edition = "2021"
publish = false

[dependencies]
bcrypt = "*"
rand = "0.8"
base64 = "*"
uuid = { version = "*", features = ["v4"] }
chrono = { version = "*", default-features = false, features = ["clock"] }
serde = { version = "*", features = ["derive"] }
serde_json = "*"
axum = "*"
tokio = { version = "*", features = ["rt-multi-thread", "macros", "net", "sync", "time"] }
reqwest = { version = "*", default-features = false, features = ["json"] }
