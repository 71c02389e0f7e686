[package]
name = "weecord"
version = "0.2.0"
edition = "2021"
publish = false

[dependencies]
crossbeam-channel = "0.5"
dirs = "2"
indexmap = "2"
json = "0.12"
lazy_static = "1"
libc = "0.2"
parking_lot = "0.12"
regex = "1"
serenity = { version = "0.8", default-features = false, features = ["cache", "client", "gateway", "http", "model", "utils", "rustls_backend"] }
weechat = "0.3"
