[package]
name = "pspdrp"
version = "0.1.0"
edition = "2021"
publish = false

[dependencies]
crc32fast = "*"
anyhow = "*"
chrono = { version = "*", default-features = false, features = ["clock"] }
crossterm = "*"
discord-rich-presence = "*"
image = { version = "*", default-features = false, features = ["png"] }
artem = { version = "*", default-features = false }
ratatui = "*"
reqwest = { version = "*", default-features = false }
rusb = "*"
serde = { version = "*", features = ["derive"] }
serde_json = "*"
strsim = "*"
tokio = { version = "*", features = ["rt-multi-thread", "net", "sync", "time", "macros"] }
toml = "*"
tracing = "*"
