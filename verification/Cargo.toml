[package]
name = "entry"
version = "0.1.0"
edition = "2021"
publish = false

[dependencies]
chrono = { version = "0.4", default-features = false, features = ["std", "clock"] }
uuid = { version = "1", features = ["v4"] }
anyhow = "1"
tokio = { version = "1", features = ["rt-multi-thread", "macros", "time", "sync"] }
tonic = "*"
tracing = "0.1"
sqlx = { version = "0.8", default-features = false, features = ["mysql", "runtime-tokio", "macros", "migrate", "chrono"] }
