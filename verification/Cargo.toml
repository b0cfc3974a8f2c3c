[package]
name = "futures_intrusive"
version = "0.1.0"
edition = "2021"
publish = false

[dependencies]
futures-core = "0.3"
lock_api = "0.4"
parking_lot = "0.12"
pin-list = "*"
pin-project-lite = "0.2"
