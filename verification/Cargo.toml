[package]
name = "rotz_link"
version = "0.1.0"
edition = "2021"
publish = false

[dependencies]
age = "0.11"
serde = { version = "1", features = ["derive"] }
thiserror = "2"
