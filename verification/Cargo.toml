[package]
name = "backup_buddy"
version = "0.1.0"
edition = "2021"
publish = false

[dependencies]
uuid = { version = "1", features = ["v4"] }
chrono = "0.4"
maud = "*"
actix-web = { version = "4", default-features = false, features = ["macros"] }
tokio = { version = "1", features = ["rt-multi-thread", "macros", "sync", "time", "fs"] }
tokio-stream = { version = "*", features = ["fs"] }
tracing = "*"
tracing-subscriber = "*"
tracing-actix-web = "*"
r2d2 = "*"
r2d2_sqlite = "*"
anyhow = "1"
serde = { version = "1", features = ["derive"] }
