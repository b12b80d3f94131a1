[package]
name = "baras"
version = "0.1.0"
edition = "2021"
publish = false

[dependencies]
hashbrown = "0.15"
chrono = { version = "0.4", default-features = false, features = ["alloc"] }
serde = { version = "1", features = ["derive"] }
