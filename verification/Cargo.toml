[package]
name = "remindee"
version = "0.1.0"
edition = "2021"
publish = false

[dependencies]
bitmask-enum = "*"
chrono = { version = "=0.4.45", features = ["serde"] }
chrono-tz = "=0.10.4"
nonempty = "=0.12.0"
serde = { version = "=1.0.229", features = ["derive"] }
serde_json = "1"
