[package]
name = "buisson"
version = "0.1.0"
edition = "2021"
publish = false

[dependencies]
byteorder = "1"
chrono = { version = "0.4", features = ["serde"] }
cli-log = "2"
crossterm = "0.28"
rand = "0.8"
ratatui = "0.28"
ron = "0.8"
rusqlite = "0.32"
serde = { version = "1", features = ["derive"] }
unicode-width = "0.1"
xdg = "2"
