[package]
name = "rocketmq"
version = "0.1.0"
edition = "2021"
publish = false

[dependencies]
crc32fast = "=1.5.4"
serde = { version = "=1.0.229", features = ["derive"] }
serde_json = "=1.0.154"
prost = "*"
prost-reflect = "*"
protox = "*"
