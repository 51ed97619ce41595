[package]
name = "bee"
version = "0.1.0"
edition = "2021"
publish = false

[dependencies]
twox-hash = "1.6"
serde = { version = "1", features = ["derive"] }
futures = "0.3"
log = "0.4"
async-std = "1"
