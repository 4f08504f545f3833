[package]
name = "session_auth"
version = "0.1.0"
edition = "2021"
publish = false

[dependencies]
jsonwebtoken = { version = "=11.1.0", default-features = false, features = ["rust_crypto"] }
uuid = { version = "*", features = ["v4"] }
serde = { version = "*", features = ["derive"] }
axum = "*"
axum-extra = { version = "*", features = ["cookie"] }
tokio = { version = "*", features = ["rt-multi-thread", "macros", "net"] }
chrono = "*"
dotenv = "*"
tracing = "*"
