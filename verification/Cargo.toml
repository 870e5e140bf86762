[package]
name = "input_capture"
version = "0.1.0"
edition = "2021"
publish = false

[dependencies]
anyhow = "=1.0.104"
async-io = "=2.6.0"
calloop = "=0.14.5"
enumflags2 = "=0.7.12"
futures-util = "=0.3.34"
reis = "=0.7.1"
serde = { version = "=1.0.229", features = ["derive"] }
smithay = { version = "=0.7.0", default-features = false }
zbus = "5"
