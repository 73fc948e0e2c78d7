[package]
name = "evcast"
version = "0.1.0"
edition = "2021"
publish = false

[dependencies]
postcard = { version = "1", default-features = false }
serde = { version = "1", features = ["derive"] }
evdev = { version = "0.12", features = ["serde"] }
toml = "0.8"
bus = "2"
