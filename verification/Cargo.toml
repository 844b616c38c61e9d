[package]
name = "kodeck"
version = "0.1.0"
edition = "2021"
publish = false

[dependencies]
uuid = { version = "1", features = ["v4"] }
regex = "1"
keyring = { version = "3", default-features = false }
serde = { version = "1", features = ["derive"] }
serde_json = "1"
crossterm = "*"
ratatui = "*"
ratatui-textarea = "*"
tui-input = "*"
color-eyre = "*"
ignore = "*"
rayon = "*"
