[package]
name = "ground_station"
version = "0.1.0"
edition = "2021"
publish = false

[dependencies]
anyhow = "1"
async-std = { version = "1", features = ["attributes"] }
color-eyre = "0.6"
crossfire = "0.1"
log = "0.4"
serde = { version = "1", features = ["derive"] }
serde_cbor = "0.11"
serde_json = "1"
serialport = { version = "4", default-features = false }
simplelog = "0.12"
tide = "0.16"
ts-rs = "*"
