[package]
name = "rename_device"
version = "0.1.0"
edition = "2021"
publish = false

[dependencies]
log = "0.4"
mac_address = "1"
