[package]
name = "vods"
version = "0.1.0"
edition = "2021"
publish = false

[dependencies]
anyhow = "*"
async-channel = "*"
bytes = "*"
chrono = "*"
clap = { version = "*", features = ["derive"] }
futures = "*"
hex = "*"
m3u8-rs = "*"
reqwest = { version = "*", default-features = false }
sha1 = "*"
tokio = { version = "*", features = ["rt-multi-thread", "macros", "sync", "time"] }
