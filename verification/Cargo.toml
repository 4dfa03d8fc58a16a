[package]
name = "processguard"
version = "0.1.0"
edition = "2021"
publish = false

[dependencies]
chrono = "0.4"
flate2 = "1"
libc = "0.2"
serde = { version = "1", features = ["derive"] }
toml = "0.8"
