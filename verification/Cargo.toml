[package]
name = "cobot_comms"
version = "0.1.0"
edition = "2021"
publish = false

[dependencies]
log = "*"
serialport = { version = "*", default-features = false }
flexi_logger = "*"
