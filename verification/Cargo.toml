[package]
name = "lovm"
version = "0.1.0"
edition = "2021"
publish = false

[dependencies]
colored = "*"
serde = { version = "1", features = ["derive"] }
bincode = "1"
