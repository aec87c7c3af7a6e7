[package]
name = "std_logger"
version = "0.1.0"
edition = "2021"
publish = false

[dependencies]
log = { version = "0.4", features = ["std", "kv"] }
itoa = "1"
ryu = "1"
