[package]
name = "ollaic"
version = "0.1.0"
edition = "2021"
publish = false

[dependencies]
base64 = "0.22"
clap = { version = "4", features = ["derive"] }
dirs = "5"
futures = "0.3"
futures-util = "0.3"
image = { version = "0.25", default-features = false, features = ["png"] }
mime_guess = "2"
reqwest = { version = "0.12", default-features = false, features = ["stream"] }
serde = { version = "1", features = ["derive"] }
serde_json = "1"
sha2 = "0.10"
tokio = { version = "1", features = ["fs", "macros", "net", "rt-multi-thread", "sync", "time"] }
