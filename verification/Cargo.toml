[package]
name = "homeserver"
version = "0.1.0"
edition = "2021"
publish = false

[dependencies]
rand = "*"
uuid = { version = "*", features = ["v4"] }
rust-argon2 = "*"
serde = { version = "*", features = ["derive"] }
serde_json = "*"
actix-web = "*"
actix-cors = "*"
tokio = { version = "*", features = ["rt-multi-thread", "macros", "sync", "time"] }
futures = "*"
toml = "*"
fs-err = { version = "*", features = ["tokio"] }
tracing = "*"
tracing-subscriber = { version = "*", features = ["env-filter"] }
