[package]
name = "ddss"
version = "0.1.0"
edition = "2021"
publish = false

[dependencies]
contract-bridge = "*"
ddss-sys = "*"
parking_lot = "*"
