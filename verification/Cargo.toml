[package]
name = "terminal_chat"
version = "0.1.0"
edition = "2021"
publish = false

[dependencies]
uuid = { version = "*", features = ["v4"] }
tokio = { version = "*", features = ["rt-multi-thread", "net", "io-util", "sync", "macros", "io-std"] }
clap = { version = "*", features = ["derive"] }
chrono = "*"
colored = "*"
