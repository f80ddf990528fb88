[package]
name = "rusty_ulid"
version = "1.0.0"
edition = "2021"
publish = false

[dependencies]
chrono = { version = "0.4", default-features = false, features = ["clock", "std"] }
rand = "0.8"
rocket = { version = "0.5", default-features = false }
schemars = "0.8"
serde = "1"
