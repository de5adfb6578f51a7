[package]
name = "grok_bridge"
version = "0.1.0"
edition = "2021"
publish = false

[dependencies]
anyhow = "1"
base64 = "0.22"
serde = { version = "1", features = ["derive"] }
serde_json = "1"
getrandom = "0.3"
dirs = "*"
ureq = { version = "2", default-features = false, features = ["json"] }
vt100 = "*"
portable-pty = "*"
tungstenite = { version = "*", default-features = false, features = ["handshake"] }
interprocess = "2"
libc = "0.2"
crossterm = "*"
ratatui = "*"

[dev-dependencies]
tempfile = "3"
