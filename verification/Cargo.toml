[package]
name = "link_session"
version = "0.1.0"
edition = "2021"
publish = false

[dependencies]
chrono = "0.4"
local-ip-address = "0.6"
tokio = { version = "1", features = ["macros", "net", "rt", "sync", "time"] }
tracing = "0.1"
