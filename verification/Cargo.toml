[package]
name = "glow"
version = "0.1.0"
edition = "2021"
publish = false

[dependencies]
url = "2"
percent-encoding = "2"
html-escape = "0.2"
pulldown-cmark = { version = "0.13", default-features = false, features = ["html"] }
syntect = { version = "5", default-features = false, features = ["default-fancy"] }
unicode-width = "0.2"
unicode-segmentation = "1"
ammonia = "4"
base64 = "0.22"
pulldown-latex = "*"
mermaid-svg = "*"
ratatui = "0.29"
crossterm = "0.28"
anyhow = "1"
serde = { version = "1", features = ["derive"] }
serde_yaml = "0.9"
serde_json = "1"
clap = { version = "4", features = ["derive", "env"] }
clap_complete = "4"
tokio = { version = "1", features = ["rt-multi-thread", "macros", "process", "io-util", "sync", "time", "signal", "net", "fs"] }
axum = "0.8"
reqwest = { version = "0.12", default-features = false, features = ["rustls-tls", "json"] }
ignore = "0.4"
notify = "8"
dirs = "6"
shell-words = "1"
