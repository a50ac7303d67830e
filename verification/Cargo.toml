[package]
name = "blackjack"
version = "0.1.0"
edition = "2021"
publish = false

[dependencies]
uuid = { version = "1", features = ["v4", "serde"] }
serde = { version = "1", features = ["derive"] }
rmp-serde = "1"
time = { version = "0.3", features = ["serde"] }
websocket = { version = "*", default-features = false, features = ["sync"] }
