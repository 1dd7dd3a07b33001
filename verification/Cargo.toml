[package]
name = "turnmender"
version = "0.1.0"
edition = "2021"
publish = false

[dependencies]
serde = { version = "1", features = ["derive"] }
serde_json = "1"
chrono = "0.4"
uuid = { version = "1", features = ["v4"] }
dirs = "*"
parking_lot = "0.12"
thiserror = "*"
libc = "0.2"
named_pipe = "*"
