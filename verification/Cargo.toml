[package]
name = "mdpreview"
version = "0.1.0"
edition = "2021"
publish = false

[dependencies]
axum = "*"
chrono = "*"
comrak = "*"
notify = "*"
serde_json = "*"
tokio = { version = "*", features = ["rt-multi-thread", "macros", "net", "time"] }
