[package]
name = "nvidia_nim"
version = "0.1.0"
edition = "2021"
publish = false

[dependencies]
url = "*"
uuid = { version = "*", features = ["v7"] }
serde = { version = "*", features = ["derive"] }
serde_json = "*"
reqwest = { version = "*", default-features = false }
tokio = { version = "*", features = ["rt", "macros", "time"] }
secrecy = "*"
