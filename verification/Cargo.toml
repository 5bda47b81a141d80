[package]
name = "flog"
version = "0.1.0"
edition = "2021"
publish = false

[dependencies]
unicode-width = "0.2"
serde_json = { version = "1", features = ["preserve_order"] }
plist = "1"
regex = "1"
ratatui = "0.29"
tokio = { version = "1", features = ["full"] }
futures-util = "0.3"
tokio-tungstenite = "0.26"
