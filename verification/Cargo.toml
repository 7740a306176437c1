[package]
name = "wole"
version = "0.1.0"
edition = "2021"
publish = false

[dependencies]
anyhow = "1"
battery = "0.7"
bytesize = "1"
chrono = "0.4"
ratatui = "0.29"
serde = { version = "1", features = ["derive"] }
sysinfo = "0.32"
trash = "*"
