[package]
name = "last_stop"
version = "0.1.0"
edition = "2021"
publish = false

[dependencies]
bevy = { version = "0.16", default-features = false, features = ["std", "bevy_state"] }
rand = "0.8"
chrono = "0.4"
serde = { version = "1", features = ["derive"] }
