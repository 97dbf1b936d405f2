[package]
name = "tchux"
version = "0.1.0"
edition = "2021"
publish = false

[dependencies]
aes-gcm = "0.10"
base64 = "0.22"
sha2 = "0.10"
uuid = { version = "1", features = ["v4"] }
chrono = "0.4"
tokio = { version = "1", features = ["full"] }
ratatui = "0.29"
ansi-to-tui = "7"
anyhow = "1"
ctrlc = "3"
tracing = "0.1"
tracing-appender = "0.2"
tracing-subscriber = "0.3"
crossterm = "0.28"
simplelog = "0.12"
log = "0.4"
