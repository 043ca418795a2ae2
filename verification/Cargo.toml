[package]
name = "task_googlecloud"
version = "0.1.0"
edition = "2021"
publish = false

[dependencies]
clap = { version = "4", features = ["derive"] }
libc = "0.2"
percent-encoding = "2"
reqwest = { version = "0.12", default-features = false, features = ["rustls-tls", "stream"] }
serde = { version = "1", features = ["derive"] }
serde_json = "1"
signal-hook = "0.3"
thiserror = "2"
tokio = { version = "1", features = ["fs", "macros", "net", "rt", "time"] }
tokio-util = { version = "0.7", features = ["io"] }
unicode-normalization = "0.1"
url = "2"
uuid = { version = "1", features = ["v4"] }
