[package]
name = "moonlight-core-rs"
version = "0.1.0"
edition = "2021"
publish = false

[dependencies]
etherparse = "*"
log = "0.4"
parking_lot = "0.12"
once_cell = "1"
libc = "0.2"
android_logger = { version = "*", default-features = false }
