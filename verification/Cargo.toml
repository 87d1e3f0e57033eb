[package]
name = "rustis"
version = "0.1.0"
edition = "2021"
publish = false

[dependencies]
atoi = "2"
crc16 = "0.4"
rand = "*"
serde = { version = "1", features = ["derive"] }
thiserror = "*"
