[package]
name = "cover_compositor"
version = "0.1.0"
edition = "2021"
publish = false

[dependencies]
base64 = "*"
futures = "*"
image = { version = "*", default-features = false, features = ["png"] }
ratatui = { version = "*", default-features = false }
ratatui-image = { version = "*", default-features = false }
tokio = { version = "1", features = ["macros", "rt", "sync", "time"] }
tracing = "*"
