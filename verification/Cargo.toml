[package]
name = "cellularhub"
version = "1.0.0"
edition = "2021"
publish = false

[dependencies]
chrono = "0.4"
serde = { version = "1", features = ["derive"] }
serde_json = "1"
uuid = { version = "1", features = ["v4", "v5"] }
serialport = { version = "4", default-features = false }
