[package]
name = "hydroxyl"
version = "0.1.0"
edition = "2021"
publish = false

[dependencies]
fastnbt = "2"
flate2 = "1"
serde = { version = "1", features = ["derive"] }
serde_json = "1"
uuid = "1"
base64 = "0.22"
image = { version = "0.25", default-features = false, features = ["png"] }
reqwest = { version = "0.12", default-features = false, features = ["blocking"] }
ratatui = "0.29"
crossterm = "0.28"
clap = { version = "4", features = ["derive"] }
