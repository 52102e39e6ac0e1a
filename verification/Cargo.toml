[package]
name = "mpxrust"
version = "0.1.0"
edition = "2021"
publish = false

[dependencies]
cfb = "*"
serde = { version = "1", features = ["derive"] }
thiserror = "*"
